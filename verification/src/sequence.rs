//! Sequences: one DWARF line sequence materialized into instructions and
//! decomposed into blocks.
//!
//! `LineSequence` is the plain content of one line sequence: its address
//! range and its rows. `Sequence` is what the debugger works with: the same
//! range, and the rows materialized into instructions and grouped into
//! sorted blocks.

use vstd::prelude::*;
use vstd::multiset::Multiset;
use crate::instruction::{
    Instruction, LineRow, ProgramLanguage, spec_is_prologue_complete, is_prologue_complete,
    spec_instruction_from_line_row, spec_copied,
};
use crate::block::{Block, FunctionDie};

verus! {

/// The plain content of one DWARF line sequence: the half-open address
/// range it covers and its rows, in the order the line program emits them.
pub struct LineSequence {
    /// The first address the sequence covers.
    pub start: u64,
    /// The first address past the sequence (the end-sequence marker).
    pub end: u64,
    /// The rows of the sequence.
    pub rows: Vec<LineRow>,
}

/// The instructions a row stream materializes into, carrying the prologue
/// state and the previous row along: rows after the first end-sequence
/// marker are not materialized.
pub open spec fn spec_materialize(
    rows: Seq<LineRow>,
    language: ProgramLanguage,
    prologue_completed: bool,
    previous_row: Option<LineRow>,
) -> Seq<Instruction>
    decreases rows.len(),
{
    if rows.len() == 0 {
        Seq::<Instruction>::empty()
    } else {
        let row = rows.first();
        let completed = prologue_completed
            || spec_is_prologue_complete(row, language, previous_row);
        if row.end_sequence {
            Seq::<Instruction>::empty()
        } else {
            seq![spec_instruction_from_line_row(completed, row, previous_row)]
                + spec_materialize(rows.drop_first(), language, completed, Some(row))
        }
    }
}

/// The instructions of a whole sequence, from its initial state.
pub open spec fn spec_sequence_instructions(rows: Seq<LineRow>, language: ProgramLanguage)
    -> Seq<Instruction> {
    spec_materialize(rows, language, false, None)
}

/// Each materialized instruction keeps its row's address, file and column,
/// and only rows before the first end-sequence marker are materialized.
pub proof fn lemma_materialize_shape(
    rows: Seq<LineRow>,
    language: ProgramLanguage,
    prologue_completed: bool,
    previous_row: Option<LineRow>,
)
    ensures
        ({
            let m = spec_materialize(rows, language, prologue_completed, previous_row);
            m.len() <= rows.len()
            && (forall|i: int| 0 <= i < m.len()
                ==> (#[trigger] m[i]).address == rows[i].address
                    && m[i].file_index == rows[i].file_index
                    && m[i].column == rows[i].column
                    && !rows[i].end_sequence)
            && (m.len() < rows.len() ==> rows[m.len() as int].end_sequence)
        }),
    decreases rows.len(),
{
    if rows.len() != 0 {
        let row = rows.first();
        let completed = prologue_completed
            || spec_is_prologue_complete(row, language, previous_row);
        if !row.end_sequence {
            lemma_materialize_shape(rows.drop_first(), language, completed, Some(row));
        }
    }
}

/// Materialize the rows of a sequence into instructions, tracking the
/// prologue state and inheriting lines as each row dictates.
pub fn materialize_rows(rows: &Vec<LineRow>, language: ProgramLanguage) -> (r: Vec<Instruction>)
    ensures
        r@ == spec_sequence_instructions(rows@, language),
{
    let n = rows.len();
    let mut result: Vec<Instruction> = Vec::new();
    let mut prologue_completed = false;
    let mut previous_row: Option<LineRow> = None;
    let mut i: usize = 0;
    let mut stopped = false;
    proof {
        assert(rows@.skip(0) =~= rows@);
        assert(result@ + spec_materialize(rows@, language, false, None)
            =~= spec_materialize(rows@, language, false, None));
    }
    while i < n && !stopped
        invariant
            n == rows@.len(),
            0 <= i <= n,
            spec_sequence_instructions(rows@, language)
                == result@ + spec_materialize(rows@.skip(i as int), language,
                    prologue_completed, previous_row),
            stopped ==> i < n && rows@[i as int].end_sequence,
        decreases n - i, (if stopped { 0int } else { 1 }),
    {
        let row = rows[i];
        let prev_ref: Option<&LineRow> = match &previous_row {
            Some(r) => Some(r),
            None => None,
        };
        proof {
            assert(spec_copied(prev_ref) == previous_row);
            let rest = rows@.skip(i as int);
            assert(rest.first() == rows@[i as int]);
            assert(rest.drop_first() =~= rows@.skip(i as int + 1));
        }
        let ghost pc_entry = prologue_completed;
        if !prologue_completed && is_prologue_complete(&row, language, prev_ref) {
            prologue_completed = true;
        }
        if row.end_sequence {
            stopped = true;
        } else {
        let instruction = Instruction::from_line_row(prologue_completed, &row, prev_ref);
        let ghost pre = result@;
        result.push(instruction);
        proof {
            assert(result@ =~= pre + seq![instruction]);
            assert(pre + (seq![instruction] + spec_materialize(rows@.skip(i as int + 1),
                language, prologue_completed, Some(row)))
                =~= result@ + spec_materialize(rows@.skip(i as int + 1), language,
                    prologue_completed, Some(row)));
        }
        previous_row = Some(row);
        i = i + 1;
        }
    }
    proof {
        if stopped {
            assert(spec_materialize(rows@.skip(i as int), language, prologue_completed,
                previous_row).len() == 0);
        } else {
            assert(rows@.skip(n as int).len() == 0);
        }
        assert(result@ + Seq::<Instruction>::empty() =~= result@);
    }
    result
}

/// The instructions of all blocks, in block order.
pub open spec fn spec_flatten_blocks(blocks: Seq<Block>) -> Seq<Instruction>
    decreases blocks.len(),
{
    if blocks.len() == 0 {
        Seq::<Instruction>::empty()
    } else {
        blocks.first().instructions@ + spec_flatten_blocks(blocks.drop_first())
    }
}

/// Flattening one more block appends its instructions.
pub proof fn lemma_flatten_push(blocks: Seq<Block>, b: Block)
    ensures
        spec_flatten_blocks(blocks.push(b))
            == spec_flatten_blocks(blocks) + b.instructions@,
    decreases blocks.len(),
{
    if blocks.len() == 0 {
        assert(blocks.push(b).drop_first() =~= blocks);
        assert(blocks.push(b).first() == b);
        assert(spec_flatten_blocks(blocks.push(b))
            =~= spec_flatten_blocks(blocks) + b.instructions@);
    } else {
        assert(blocks.push(b).drop_first() =~= blocks.drop_first().push(b));
        lemma_flatten_push(blocks.drop_first(), b);
        assert(spec_flatten_blocks(blocks.push(b))
            =~= spec_flatten_blocks(blocks) + b.instructions@);
    }
}

/// A list of instructions standing at offset `a` of a larger one.
pub open spec fn spec_is_subrange_at(
    instrs: Seq<Instruction>,
    within: Seq<Instruction>,
    a: int,
) -> bool {
    0 <= a && a + instrs.len() <= within.len()
        && instrs == within.subrange(a, a + instrs.len())
}

/// Block `k`'s `steps_to` edge, where set, names the next block's start.
pub open spec fn spec_steps_to_linked(blocks: Seq<Block>, k: int) -> bool {
    blocks[k].steps_to is Some ==> k + 1 < blocks.len()
        && blocks[k].steps_to == Some(blocks[k + 1].instructions@.first().address)
}

/// Block `k`'s `stepped_from` edge is set exactly where the previous
/// block's `steps_to` names this block's start, and then carries the
/// previous block's last address.
pub open spec fn spec_stepped_from_linked(blocks: Seq<Block>, k: int) -> bool {
    blocks[k].stepped_from == (
        if k > 0 && blocks[k - 1].steps_to == Some(blocks[k].instructions@.first().address) {
            Some(blocks[k - 1].instructions@.last().address)
        } else {
            None::<u64>
        }
    )
}

/// Block `j` exists and starts at the given address.
pub open spec fn spec_block_starts_at(blocks: Seq<Block>, j: int, address: u64) -> bool {
    0 <= j < blocks.len() && blocks[j].instructions@.first().address == address
}

/// Block `k`'s `steps_to` edge, where set, names some block's start.
pub open spec fn spec_steps_to_resolvable(blocks: Seq<Block>, k: int) -> bool {
    blocks[k].steps_to is Some ==> exists|j: int|
        #[trigger] spec_block_starts_at(blocks, j, blocks[k].steps_to->Some_0)
}

/// The properties block decomposition gives a block list over the
/// materialized instructions it was built from: every block is a non-empty
/// contiguous piece of the instruction list; together the blocks carry the
/// same instructions; every `steps_to` edge names another block's first
/// address; and each block's inlining records the innermost DIE at its
/// start.
pub open spec fn spec_valid_decomposition(
    blocks: Seq<Block>,
    instrs: Seq<Instruction>,
    dies: Seq<FunctionDie>,
) -> bool {
    (forall|k: int| 0 <= k < blocks.len()
        ==> (#[trigger] blocks[k]).instructions@.len() > 0)
    && (forall|k: int| 0 <= k < blocks.len()
        ==> exists|a: int| spec_is_subrange_at((#[trigger] blocks[k]).instructions@, instrs, a))
    && spec_flatten_blocks(blocks).to_multiset() == instrs.to_multiset()
    && (forall|k: int| 0 <= k < blocks.len() ==> #[trigger] spec_steps_to_resolvable(blocks, k))
    && (forall|k: int| 0 <= k < blocks.len()
        ==> (#[trigger] blocks[k]).is_inlined
            == Block::spec_block_is_inlined(dies, blocks[k].instructions@.first().address))
}

/// Group the instructions of one materialized sequence into blocks, in
/// order: each block is the maximal run from its start to the first
/// boundary, its `steps_to` edge set where the boundary names the next
/// address, and its `stepped_from` edge set where the previous block's
/// `steps_to` named this block's start.
#[verifier::rlimit(80)]
pub fn build_blocks(instructions: &Vec<Instruction>, dies: &Vec<FunctionDie>)
    -> (blocks: Vec<Block>)
    ensures
        spec_flatten_blocks(blocks@) == instructions@,
        spec_valid_decomposition(blocks@, instructions@, dies@),
        forall|k: int| 0 <= k < blocks@.len() ==> #[trigger] spec_steps_to_linked(blocks@, k),
        forall|k: int| 0 <= k < blocks@.len() ==> #[trigger] spec_stepped_from_linked(blocks@, k),
{
    let n = instructions.len();
    let mut blocks: Vec<Block> = Vec::new();
    let mut pos: usize = 0;
    while pos < n
        invariant
            n == instructions@.len(),
            0 <= pos <= n,
            spec_flatten_blocks(blocks@) == instructions@.take(pos as int),
            forall|k: int| 0 <= k < blocks@.len()
                ==> (#[trigger] blocks@[k]).instructions@.len() > 0,
            forall|k: int| 0 <= k < blocks@.len()
                ==> exists|a: int| spec_is_subrange_at((#[trigger] blocks@[k]).instructions@,
                    instructions@, a),
            forall|k: int| 0 <= k < blocks@.len()
                ==> (#[trigger] blocks@[k]).is_inlined
                    == Block::spec_block_is_inlined(dies@,
                        blocks@[k].instructions@.first().address),
            forall|k: int| 0 <= k < blocks@.len() - 1
                ==> #[trigger] spec_steps_to_linked(blocks@, k),
            blocks@.len() > 0 && blocks@.last().steps_to is Some
                ==> pos < n && blocks@.last().steps_to
                    == Some(instructions@[pos as int].address),
            forall|k: int| 0 <= k < blocks@.len()
                ==> #[trigger] spec_stepped_from_linked(blocks@, k),
        decreases n - pos,
    {
        let starting_address = instructions[pos].address;
        let stepped_from: Option<u64> = if blocks.len() > 0 {
            let prev = &blocks[blocks.len() - 1];
            match prev.steps_to {
                Some(addr) => {
                    if addr == starting_address {
                        Some(prev.instructions[prev.instructions.len() - 1].address)
                    } else {
                        None
                    }
                }
                None => None,
            }
        } else {
            None
        };
        let (block, next) = Block::new(starting_address, stepped_from, instructions, pos, dies);
        let ghost pre = blocks@;
        blocks.push(block);
        proof {
            lemma_flatten_push(pre, block);
            assert(instructions@.take(pos as int)
                + instructions@.subrange(pos as int, next as int)
                =~= instructions@.take(next as int));
            assert(blocks@.last() == block);
            assert(block.instructions@.first() == instructions@[pos as int]);
            assert(spec_is_subrange_at(block.instructions@, instructions@, pos as int));
            assert(blocks@ == pre.push(block));
            assert forall|k: int| 0 <= k < blocks@.len() - 1
                implies #[trigger] spec_steps_to_linked(blocks@, k) by {
                assert(blocks@[k] == pre[k]);
                if k < pre.len() - 1 {
                    assert(spec_steps_to_linked(pre, k));
                    assert(blocks@[k + 1] == pre[k + 1]);
                } else {
                    assert(k == pre.len() - 1);
                    assert(blocks@[k + 1] == block);
                }
            }
            assert forall|k: int| 0 <= k < blocks@.len()
                implies #[trigger] spec_stepped_from_linked(blocks@, k) by {
                if k < pre.len() {
                    assert(blocks@[k] == pre[k]);
                    assert(spec_stepped_from_linked(pre, k));
                    if k > 0 {
                        assert(blocks@[k - 1] == pre[k - 1]);
                    }
                } else {
                    assert(k == pre.len() as int);
                    assert(blocks@[k] == block);
                    if k > 0 {
                        assert(blocks@[k - 1] == pre[k - 1]);
                    }
                }
            }
        }
        pos = next;
    }
    proof {
        assert(instructions@.take(n as int) =~= instructions@);
        assert(spec_flatten_blocks(blocks@).to_multiset() == instructions@.to_multiset());
        assert forall|k: int| 0 <= k < blocks@.len()
            implies #[trigger] spec_steps_to_linked(blocks@, k) by {
            if k < blocks@.len() - 1 {
                assert(spec_steps_to_linked(blocks@, k));
            } else {
                assert(blocks@[k] == blocks@.last());
            }
        }
        assert forall|k: int| 0 <= k < blocks@.len()
            implies #[trigger] spec_steps_to_resolvable(blocks@, k) by {
            assert(spec_steps_to_linked(blocks@, k));
            if blocks@[k].steps_to is Some {
                let address = blocks@[k].steps_to->Some_0;
                assert(address == blocks@[k + 1].instructions@.first().address);
                assert(spec_block_starts_at(blocks@, k + 1, address));
            }
        }
    }
    blocks
}

/// Block order: by the address of the first instruction.
pub open spec fn spec_blocks_sorted(blocks: Seq<Block>) -> bool {
    forall|i: int, j: int| 0 <= i < j < blocks.len()
        ==> (#[trigger] blocks[i]).instructions@.first().address
            <= (#[trigger] blocks[j]).instructions@.first().address
}

/// Sort blocks by starting address, keeping exactly the same blocks.
#[verifier::rlimit(100)]
pub fn sort_blocks(blocks: Vec<Block>) -> (r: Vec<Block>)
    requires
        forall|k: int| 0 <= k < blocks@.len()
            ==> (#[trigger] blocks@[k]).instructions@.len() > 0,
    ensures
        r@.to_multiset() == blocks@.to_multiset(),
        spec_blocks_sorted(r@),
        forall|k: int| 0 <= k < r@.len() ==> blocks@.contains(#[trigger] r@[k]),
{
    broadcast use vstd::seq_lib::group_to_multiset_ensures;

    let mut input = blocks;
    let mut r: Vec<Block> = Vec::new();
    let ghost orig = input@;
    while input.len() > 0
        invariant
            input@.to_multiset().add(r@.to_multiset()) == orig.to_multiset(),
            spec_blocks_sorted(r@),
            forall|k: int| 0 <= k < r@.len() ==> orig.contains(#[trigger] r@[k]),
            forall|k: int| 0 <= k < input@.len() ==> orig.contains(#[trigger] input@[k]),
            forall|k: int| 0 <= k < r@.len()
                ==> (#[trigger] r@[k]).instructions@.len() > 0,
            forall|k: int| 0 <= k < input@.len()
                ==> (#[trigger] input@[k]).instructions@.len() > 0,
        decreases input@.len(),
    {
        let ghost in_pre = input@;
        let b = input.remove(0);
        proof {
            broadcast use vstd::seq_lib::group_to_multiset_ensures;

            assert(in_pre[0] == b);
            assert(in_pre.contains(b));
            assert(input@ =~= in_pre.remove(0));
            assert(in_pre.remove(0).to_multiset() =~= in_pre.to_multiset().remove(in_pre[0]));
        }
        let key = b.instructions[0].address;
        // Find the first position whose block starts past the key.
        let mut p: usize = 0;
        let rn = r.len();
        while p < rn && r[p].instructions[0].address <= key
            invariant
                0 <= p <= rn,
                rn == r@.len(),
                forall|k: int| 0 <= k < r@.len()
                    ==> (#[trigger] r@[k]).instructions@.len() > 0,
                key == b.instructions@.first().address,
                spec_blocks_sorted(r@),
                forall|a: int| 0 <= a < p
                    ==> (#[trigger] r@[a]).instructions@.first().address <= key,
            decreases rn - p,
        {
            p = p + 1;
        }
        let ghost r_pre = r@;
        r.insert(p, b);
        proof {
            broadcast use vstd::seq_lib::group_to_multiset_ensures;

            assert(r@ =~= r_pre.insert(p as int, b));
            r_pre.insert_ensures(p as int, b);
            assert(r_pre.insert(p as int, b).to_multiset()
                =~= r_pre.to_multiset().insert(b));
            assert(r@.to_multiset() =~= r_pre.to_multiset().insert(b));
            assert(in_pre.to_multiset().add(r_pre.to_multiset())
                =~= input@.to_multiset().add(r@.to_multiset()));
            assert forall|i: int, j: int| 0 <= i < j < r@.len()
                implies (#[trigger] r@[i]).instructions@.first().address
                    <= (#[trigger] r@[j]).instructions@.first().address by {
                if j < p {
                    assert(r@[i] == r_pre[i] && r@[j] == r_pre[j]);
                } else if j == p {
                    assert(r@[j] == b);
                    assert(r@[i] == r_pre[i]);
                } else {
                    assert(r@[j] == r_pre[j - 1]);
                    if i < p {
                        assert(r@[i] == r_pre[i]);
                        if p < r_pre.len() && j - 1 >= p {
                            assert(r_pre[i].instructions@.first().address
                                <= r_pre[j - 1].instructions@.first().address);
                        }
                    } else if i == p {
                        assert(r@[i] == b);
                        assert(p < r_pre.len() ==> key
                            < r_pre[p as int].instructions@.first().address);
                        assert(r_pre[p as int].instructions@.first().address
                            <= r_pre[j - 1].instructions@.first().address);
                    } else {
                        assert(r@[i] == r_pre[i - 1]);
                    }
                }
            }
            assert forall|k: int| 0 <= k < r@.len() implies orig.contains(#[trigger] r@[k]) by {
                if k < p {
                    assert(r@[k] == r_pre[k]);
                } else if k == p {
                    assert(r@[k] == b);
                } else {
                    assert(r@[k] == r_pre[k - 1]);
                }
            }
            assert forall|k: int| 0 <= k < r@.len()
                implies (#[trigger] r@[k]).instructions@.len() > 0 by {
                if k < p {
                    assert(r@[k] == r_pre[k]);
                } else if k == p {
                    assert(r@[k] == b);
                } else {
                    assert(r@[k] == r_pre[k - 1]);
                }
            }
        }
    }
    proof {
        assert(input@.to_multiset() =~= Multiset::<Block>::empty());
        assert(input@.to_multiset().add(r@.to_multiset()) =~= r@.to_multiset());
        assert forall|k: int| 0 <= k < r@.len() implies orig.contains(#[trigger] r@[k]) by {
        }
    }
    r
}

/// The half-open address range of a sequence.
#[derive(Debug, Clone, Copy, PartialEq, Eq, Structural)]
pub struct AddressRange {
    /// The first address of the range.
    pub start: u64,
    /// The first address past the range.
    pub end: u64,
}

impl AddressRange {
    /// Whether an address lies in the range.
    pub open spec fn spec_contains(self, address: u64) -> bool {
        self.start <= address < self.end
    }
}

/// One line sequence as the debugger works with it: the address range it
/// covers, and its instructions grouped into blocks sorted by starting
/// address.
pub struct Sequence {
    /// The program-counter range the sequence is valid for: `start` is the
    /// first covered address, `end` the first address past the sequence.
    pub address_range: AddressRange,
    /// The blocks of the sequence, sorted by starting address.
    pub blocks: Vec<Block>,
}

impl Sequence {
    /// Build a `Sequence` from a line sequence: materialize the rows into
    /// instructions (dropping the end-sequence marker), group them into
    /// blocks against the unit's subprogram ranges, and sort the blocks by
    /// starting address.
    #[verifier::rlimit(80)]
    pub fn from_line_sequence(
        language: ProgramLanguage,
        dies: &Vec<FunctionDie>,
        line_sequence: &LineSequence,
    ) -> (r: Sequence)
        ensures
            r.address_range == (AddressRange { start: line_sequence.start,
                end: line_sequence.end }),
            spec_valid_decomposition(r.blocks@,
                spec_sequence_instructions(line_sequence.rows@, language), dies@),
            spec_blocks_sorted(r.blocks@),
    {
        let instructions = materialize_rows(&line_sequence.rows, language);
        let blocks = build_blocks(&instructions, dies);
        let sorted = sort_blocks(blocks);
        proof {
            let m = spec_sequence_instructions(line_sequence.rows@, language);
            assert forall|k: int| 0 <= k < sorted@.len()
                implies (#[trigger] sorted@[k]).instructions@.len() > 0
                    && (exists|a: int| spec_is_subrange_at(sorted@[k].instructions@, m, a))
                    && sorted@[k].is_inlined == Block::spec_block_is_inlined(dies@,
                        sorted@[k].instructions@.first().address) by {
                let ghost bl = sorted@[k];
                assert(blocks@.contains(bl));
                let j = choose|j: int| 0 <= j < blocks@.len() && blocks@[j] == bl;
            }
            assert(spec_flatten_blocks(sorted@).to_multiset() == m.to_multiset()) by {
                lemma_flatten_multiset(sorted@, blocks@);
            }
            assert forall|k: int| 0 <= k < sorted@.len()
                implies #[trigger] spec_steps_to_resolvable(sorted@, k) by {
                if sorted@[k].steps_to is Some {
                    let ghost bl = sorted@[k];
                    assert(blocks@.contains(bl));
                    let i0 = choose|j: int| 0 <= j < blocks@.len() && blocks@[j] == bl;
                    assert(spec_steps_to_linked(blocks@, i0));
                    assert(blocks@[i0].steps_to
                        == Some(blocks@[i0 + 1].instructions@.first().address));
                    let succ = blocks@[i0 + 1];
                    assert(sorted@.to_multiset().count(succ)
                        == blocks@.to_multiset().count(succ));
                    assert(blocks@.contains(succ));
                    assert(blocks@.to_multiset().count(succ) > 0) by {
                        broadcast use vstd::seq_lib::group_to_multiset_ensures;
                    }
                    assert(sorted@.to_multiset().count(succ) > 0);
                    assert(sorted@.contains(succ)) by {
                        broadcast use vstd::seq_lib::group_to_multiset_ensures;
                    }
                    let j = choose|j: int| 0 <= j < sorted@.len() && sorted@[j] == succ;
                    let address = sorted@[k].steps_to->Some_0;
                    assert(address == succ.instructions@.first().address);
                    assert(spec_block_starts_at(sorted@, j, address));
                }
            }
        }
        Sequence {
            address_range: AddressRange { start: line_sequence.start, end: line_sequence.end },
            blocks: sorted,
        }
    }

    /// The number of blocks in the sequence.
    pub fn len(&self) -> (r: usize)
        ensures
            r == self.blocks@.len(),
    {
        self.blocks.len()
    }
}

/// Two block lists holding the same blocks carry the same instructions,
/// counted with multiplicity.
pub proof fn lemma_flatten_multiset(a: Seq<Block>, b: Seq<Block>)
    requires
        a.to_multiset() == b.to_multiset(),
    ensures
        spec_flatten_blocks(a).to_multiset() == spec_flatten_blocks(b).to_multiset(),
    decreases a.len(),
{
    broadcast use vstd::seq_lib::group_to_multiset_ensures;

    if a.len() == 0 {
        assert(a.to_multiset() =~= Multiset::<Block>::empty());
        assert(b.to_multiset().len() == 0);
        assert(b.len() == 0);
    } else {
        let x = a.first();
        assert(a.contains(x));
        assert(a.to_multiset().count(x) > 0);
        assert(b.to_multiset().count(x) > 0);
        assert(b.contains(x));
        let j = choose|j: int| 0 <= j < b.len() && b[j] == x;
        let b2 = b.remove(j);
        let a2 = a.drop_first();
        assert(a2 =~= a.remove(0));
        assert(a2.to_multiset() =~= a.to_multiset().remove(x));
        assert(b2.to_multiset() =~= b.to_multiset().remove(x));
        lemma_flatten_multiset(a2, b2);
        lemma_flatten_remove(b, j);
        assert(spec_flatten_blocks(a) =~= x.instructions@ + spec_flatten_blocks(a2));
        lemma_multiset_of_concat(x.instructions@, spec_flatten_blocks(a2));
        lemma_multiset_of_concat(x.instructions@, spec_flatten_blocks(b2));
    }
}

/// Removing one block removes exactly its instructions from the flattened
/// list, counted with multiplicity.
pub proof fn lemma_flatten_remove(blocks: Seq<Block>, j: int)
    requires
        0 <= j < blocks.len(),
    ensures
        spec_flatten_blocks(blocks).to_multiset()
            == spec_flatten_blocks(blocks.remove(j)).to_multiset()
                .add(blocks[j].instructions@.to_multiset()),
    decreases blocks.len(),
{
    broadcast use vstd::seq_lib::group_to_multiset_ensures;

    let rest = blocks.drop_first();
    if j == 0 {
        assert(blocks.remove(0) =~= rest);
        lemma_multiset_of_concat(blocks.first().instructions@, spec_flatten_blocks(rest));
        assert(spec_flatten_blocks(blocks).to_multiset()
            =~= spec_flatten_blocks(rest).to_multiset()
                .add(blocks[0].instructions@.to_multiset()));
    } else {
        lemma_flatten_remove(rest, j - 1);
        assert(blocks.remove(j).first() == blocks.first());
        assert(blocks.remove(j).drop_first() =~= rest.remove(j - 1));
        lemma_multiset_of_concat(blocks.first().instructions@, spec_flatten_blocks(rest));
        lemma_multiset_of_concat(blocks.remove(j).first().instructions@,
            spec_flatten_blocks(rest.remove(j - 1)));
        assert(spec_flatten_blocks(blocks).to_multiset()
            =~= spec_flatten_blocks(blocks.remove(j)).to_multiset()
                .add(blocks[j].instructions@.to_multiset()));
    }
}

/// Concatenation adds instruction multisets.
pub proof fn lemma_multiset_of_concat(a: Seq<Instruction>, b: Seq<Instruction>)
    ensures
        (a + b).to_multiset() == a.to_multiset().add(b.to_multiset()),
{
    vstd::seq_lib::lemma_multiset_commutative(a, b);
}

} // verus!
