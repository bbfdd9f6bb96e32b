//! Blocks: maximal runs of instructions with no control-flow boundary that
//! DWARF alone can reveal.
//!
//! A block is a contiguous series of instructions within one line sequence,
//! closed before prologue ends, epilogue begins, inlined-call boundaries and
//! line changes between halt points, so that the next instruction in a block
//! is the next one the processor executes.

use vstd::prelude::*;
use crate::instruction::{Instruction, InstructionRole, ColumnType};

verus! {

/// The range of one subprogram DIE, as far as block decomposition reads it:
/// its address range and whether it is an inlined subroutine.
#[derive(Debug, Clone, Copy, PartialEq, Eq, Structural)]
pub struct FunctionDie {
    /// The first address the subprogram covers.
    pub low_pc: u64,
    /// The first address past the subprogram.
    pub high_pc: u64,
    /// Whether the DIE is an inlined subroutine.
    pub is_inline: bool,
}

impl FunctionDie {
    /// Whether the subprogram covers an address.
    pub open spec fn spec_covers(self, address: u64) -> bool {
        self.low_pc <= address < self.high_pc
    }
}

/// The innermost subprogram covering an address: the last covering entry of
/// the unit's DIE list, which lists enclosing subprograms before the
/// subroutines inlined into them.
pub open spec fn spec_innermost_function(dies: Seq<FunctionDie>, address: u64) -> Option<int>
    decreases dies.len(),
{
    if dies.len() == 0 {
        None
    } else if dies.last().spec_covers(address) {
        Some(dies.len() - 1)
    } else {
        spec_innermost_function(dies.drop_last(), address)
    }
}

/// Find the innermost subprogram covering an address.
pub fn innermost_function(dies: &Vec<FunctionDie>, address: u64) -> (r: Option<usize>)
    ensures
        match r {
            Some(i) => Some(i as int) == spec_innermost_function(dies@, address)
                && i < dies@.len() && dies@[i as int].spec_covers(address),
            None => spec_innermost_function(dies@, address) is None,
        },
{
    let mut i: usize = dies.len();
    proof {
        assert(dies@.take(dies@.len() as int) =~= dies@);
    }
    while i > 0
        invariant
            0 <= i <= dies@.len(),
            spec_innermost_function(dies@, address)
                == spec_innermost_function(dies@.take(i as int), address),
        decreases i,
    {
        i = i - 1;
        if dies[i].low_pc <= address && address < dies[i].high_pc {
            proof {
                let t = dies@.take(i as int + 1);
                assert(t.last() == dies@[i as int]);
                assert(spec_innermost_function(t, address) == Some(i as int));
            }
            return Some(i);
        }
        proof {
            let t = dies@.take(i as int + 1);
            assert(t.last() == dies@[i as int]);
            assert(!t.last().spec_covers(address));
            assert(t.drop_last() =~= dies@.take(i as int));
        }
    }
    proof {
        assert(dies@.take(0).len() == 0);
    }
    None
}

/// A block of instructions: contiguous within its sequence, with advisory
/// edge pointers to the addresses control enters from and steps to.
#[derive(Debug, Clone, Default)]
pub struct Block {
    /// Whether the block's instructions were inlined into the sequence.
    pub is_inlined: bool,
    /// The instructions of the block, in address order.
    pub instructions: Vec<Instruction>,
    /// The address of the instruction immediately preceding this block on
    /// the control-flow edge entering it, where known.
    pub stepped_from: Option<u64>,
    /// The address of the first instruction following the block — the next
    /// block's start, or the return site of an inlined block — where known.
    pub steps_to: Option<u64>,
}

/// Whether the walker must close the current block after consuming
/// instruction `i`: at the end of the sequence, at the end of the prologue,
/// before an epilogue, at the end of an inlined region, before entering a
/// different subprogram, or between halt points whose source line differs.
pub open spec fn spec_block_boundary(
    instrs: Seq<Instruction>,
    i: int,
    is_inlined: bool,
    block_fn: Option<int>,
    dies: Seq<FunctionDie>,
) -> bool {
    if i + 1 >= instrs.len() {
        true
    } else {
        let cur = instrs[i];
        let next = instrs[i + 1];
        // End of the prologue block.
        (cur.role == InstructionRole::Prologue && next.role != InstructionRole::Prologue)
        // The epilogue starts a fresh block.
        || next.role == InstructionRole::EpilogueBegin
        // The inlined region ends at the containing subprogram's high_pc.
        || (is_inlined && match block_fn {
            Some(f) => 0 <= f < dies.len() && next.address == dies[f].high_pc,
            None => false,
        })
        // The next instruction belongs to a different subprogram.
        || (block_fn is Some && block_fn != spec_innermost_function(dies, next.address))
        // A line-level boundary between two halt-eligible statements.
        || ((next.file_index != cur.file_index || next.line != cur.line)
            && (cur.role == InstructionRole::HaltPoint || cur.role == InstructionRole::Other)
            && next.role == InstructionRole::HaltPoint)
    }
}

/// Whether a boundary after instruction `i` records the next instruction's
/// address as the block's `steps_to` edge: only prologue ends, epilogue
/// starts and inlined-region ends do; for subprogram changes and line-level
/// boundaries the control transfer cannot be named without live state.
pub open spec fn spec_block_links_next(
    instrs: Seq<Instruction>,
    i: int,
    is_inlined: bool,
    block_fn: Option<int>,
    dies: Seq<FunctionDie>,
) -> bool {
    i + 1 < instrs.len() && {
        let cur = instrs[i];
        let next = instrs[i + 1];
        (cur.role == InstructionRole::Prologue && next.role != InstructionRole::Prologue)
        || next.role == InstructionRole::EpilogueBegin
        || (is_inlined && match block_fn {
            Some(f) => 0 <= f < dies.len() && next.address == dies[f].high_pc,
            None => false,
        })
    }
}

/// The exclusive end of the block a walker starting at `start` consumes:
/// the first index past `start` whose predecessor hit a boundary.
pub open spec fn spec_block_end(
    instrs: Seq<Instruction>,
    start: int,
    is_inlined: bool,
    block_fn: Option<int>,
    dies: Seq<FunctionDie>,
) -> int
    decreases instrs.len() - start,
{
    if start >= instrs.len() {
        start
    } else if spec_block_boundary(instrs, start, is_inlined, block_fn, dies) {
        start + 1
    } else {
        spec_block_end(instrs, start + 1, is_inlined, block_fn, dies)
    }
}

/// A block end lies past its start and within the instruction list.
pub proof fn lemma_block_end_bounds(
    instrs: Seq<Instruction>,
    start: int,
    is_inlined: bool,
    block_fn: Option<int>,
    dies: Seq<FunctionDie>,
)
    requires
        0 <= start < instrs.len(),
    ensures
        start < spec_block_end(instrs, start, is_inlined, block_fn, dies) <= instrs.len(),
    decreases instrs.len() - start,
{
    if !spec_block_boundary(instrs, start, is_inlined, block_fn, dies) {
        lemma_block_end_bounds(instrs, start + 1, is_inlined, block_fn, dies);
    }
}

/// Walking past boundary-free instructions does not move the block end.
proof fn lemma_block_end_unroll(
    instrs: Seq<Instruction>,
    start: int,
    i: int,
    is_inlined: bool,
    block_fn: Option<int>,
    dies: Seq<FunctionDie>,
)
    requires
        0 <= start <= i < instrs.len(),
        forall|j: int| start <= j < i
            ==> !spec_block_boundary(instrs, j, is_inlined, block_fn, dies),
    ensures
        spec_block_end(instrs, start, is_inlined, block_fn, dies)
            == spec_block_end(instrs, i, is_inlined, block_fn, dies),
    decreases i - start,
{
    if start < i {
        lemma_block_end_unroll(instrs, start + 1, i, is_inlined, block_fn, dies);
    }
}

impl Block {
    /// The subprogram identity and inlining of the block starting at an
    /// address: the innermost DIE there, and whether it is inlined.
    pub open spec fn spec_block_function(dies: Seq<FunctionDie>, starting_address: u64)
        -> Option<int> {
        spec_innermost_function(dies, starting_address)
    }

    /// Whether the block starting at an address is inlined.
    pub open spec fn spec_block_is_inlined(dies: Seq<FunctionDie>, starting_address: u64) -> bool {
        match spec_innermost_function(dies, starting_address) {
            Some(f) => dies[f].is_inline,
            None => false,
        }
    }

    /// Consume one block's worth of instructions, starting at index `start`
    /// (whose instruction sits at `starting_address`), and return the block
    /// together with the index of the first unconsumed instruction. The
    /// block is closed at the first boundary; its `steps_to` edge carries
    /// the next instruction's address exactly where the boundary names the
    /// transfer (prologue end, epilogue begin, inlined-region end).
    pub fn new(
        starting_address: u64,
        stepped_from: Option<u64>,
        instructions: &Vec<Instruction>,
        start: usize,
        dies: &Vec<FunctionDie>,
    ) -> (r: (Block, usize))
        requires
            start < instructions@.len(),
            instructions@[start as int].address == starting_address,
        ensures
            ({
                let block_fn = Self::spec_block_function(dies@, starting_address);
                let inl = Self::spec_block_is_inlined(dies@, starting_address);
                let end = spec_block_end(instructions@, start as int, inl, block_fn, dies@);
                r.1 == end
                && start < end <= instructions@.len()
                && r.0.is_inlined == inl
                && r.0.stepped_from == stepped_from
                && r.0.instructions@ == instructions@.subrange(start as int, end)
                && r.0.steps_to == (
                    if spec_block_links_next(instructions@, end - 1, inl, block_fn, dies@) {
                        Some(instructions@[end].address)
                    } else {
                        None::<u64>
                    }
                )
            }),
    {
        let block_fn = innermost_function(dies, starting_address);
        let is_inlined = match block_fn {
            Some(f) => dies[f].is_inline,
            None => false,
        };
        let ghost g_fn = Self::spec_block_function(dies@, starting_address);
        let mut block = Block {
            is_inlined,
            instructions: Vec::new(),
            stepped_from,
            steps_to: None,
        };
        let n = instructions.len();
        let mut i: usize = start;
        loop
            invariant
                start <= i < n,
                n == instructions@.len(),
                instructions@[start as int].address == starting_address,
                g_fn == Self::spec_block_function(dies@, starting_address),
                match block_fn {
                    Some(f) => Some(f as int) == g_fn && f < dies@.len(),
                    None => g_fn is None,
                },
                is_inlined == Self::spec_block_is_inlined(dies@, starting_address),
                forall|j: int| start <= j < i
                    ==> !spec_block_boundary(instructions@, j, is_inlined, g_fn, dies@),
                block.instructions@ == instructions@.subrange(start as int, i as int),
                block.is_inlined == is_inlined,
                block.stepped_from == stepped_from,
                block.steps_to is None,
            decreases n - i,
        {
            let instruction = &instructions[i];
            let next_index = i + 1;
            proof {
                assert(instructions@.subrange(start as int, i as int)
                    .push(instructions@[i as int])
                    =~= instructions@.subrange(start as int, i as int + 1));
            }
            if next_index >= n {
                // The sequence ends here: close the block with no successor.
                block.instructions.push(*instruction);
                proof {
                    lemma_block_end_unroll(instructions@, start as int, i as int,
                        is_inlined, g_fn, dies@);
                }
                return (block, next_index);
            }
            let next_instruction = &instructions[next_index];
            let prologue_ends = matches!(instruction.role, InstructionRole::Prologue)
                && !matches!(next_instruction.role, InstructionRole::Prologue);
            let epilogue_starts = matches!(next_instruction.role, InstructionRole::EpilogueBegin);
            let inline_region_ends = is_inlined && match block_fn {
                Some(f) => next_instruction.address == dies[f].high_pc,
                None => false,
            };
            if prologue_ends || epilogue_starts || inline_region_ends {
                // A boundary that names the control transfer: link the edge.
                block.instructions.push(*instruction);
                block.steps_to = Some(next_instruction.address);
                proof {
                    lemma_block_end_unroll(instructions@, start as int, i as int,
                        is_inlined, g_fn, dies@);
                }
                return (block, next_index);
            }
            let next_fn = innermost_function(dies, next_instruction.address);
            let subprogram_changes = match (block_fn, next_fn) {
                (Some(a), Some(b)) => a != b,
                (Some(_), None) => true,
                _ => false,
            };
            let line_boundary = (next_instruction.file_index != instruction.file_index
                    || !crate::instruction::option_u64_eq(next_instruction.line,
                        instruction.line))
                && (matches!(instruction.role, InstructionRole::HaltPoint)
                    || matches!(instruction.role, InstructionRole::Other))
                && matches!(next_instruction.role, InstructionRole::HaltPoint);
            if subprogram_changes || line_boundary {
                // A boundary whose transfer cannot be named: no edge.
                block.instructions.push(*instruction);
                proof {
                    lemma_block_end_unroll(instructions@, start as int, i as int,
                        is_inlined, g_fn, dies@);
                }
                return (block, next_index);
            }
            block.instructions.push(*instruction);
            proof {
                assert(!spec_block_boundary(instructions@, i as int, is_inlined, g_fn, dies@));
            }
            i = next_index;
        }
    }

    /// The inclusive address range the block covers, where it is not empty.
    pub fn included_addresses(&self) -> (r: Option<(u64, u64)>)
        ensures
            match r {
                Some(range) => self.instructions@.len() > 0
                    && range.0 == self.instructions@.first().address
                    && range.1 == self.instructions@.last().address,
                None => self.instructions@.len() == 0,
            },
    {
        if self.instructions.len() == 0 {
            None
        } else {
            Some((self.instructions[0].address,
                self.instructions[self.instructions.len() - 1].address))
        }
    }

    /// Whether an address lies in the block's inclusive address range.
    pub fn contains_address(&self, address: u64) -> (r: bool)
        ensures
            r == (self.instructions@.len() > 0
                && self.instructions@.first().address <= address
                && address <= self.instructions@.last().address),
    {
        match self.included_addresses() {
            Some(range) => range.0 <= address && address <= range.1,
            None => false,
        }
    }

    /// The first halt-eligible instruction matching a source location in
    /// this block: an exact file, line and column match if the column is
    /// given and one exists, otherwise the first file and line match.
    pub open spec fn spec_match_location(
        instrs: Seq<Instruction>,
        matching_file_index: Option<u64>,
        line: u64,
        column: Option<u64>,
    ) -> Option<Instruction> {
        match column {
            Some(supplied_column) => {
                let exact = first_matching(instrs, matching_file_index, line,
                    Some(supplied_column));
                if exact is Some {
                    exact
                } else {
                    first_matching(instrs, matching_file_index, line, None)
                }
            }
            None => first_matching(instrs, matching_file_index, line, None),
        }
    }

    /// Find the halt instruction that best matches `file`, `line` and
    /// `column`: exact column match first, then the column ignored.
    pub fn match_location(
        &self,
        matching_file_index: Option<u64>,
        line: u64,
        column: Option<u64>,
    ) -> (r: Option<&Instruction>)
        ensures
            match r {
                Some(instruction) => Some(*instruction)
                    == Self::spec_match_location(self.instructions@, matching_file_index, line,
                        column),
                None => Self::spec_match_location(self.instructions@, matching_file_index, line,
                    column) is None,
            },
    {
        match column {
            Some(supplied_column) => {
                let exact = find_matching(&self.instructions, matching_file_index, line,
                    Some(supplied_column));
                match exact {
                    Some(instruction) => Some(instruction),
                    None => find_matching(&self.instructions, matching_file_index, line, None),
                }
            }
            None => find_matching(&self.instructions, matching_file_index, line, None),
        }
    }

    /// The first halt-eligible instruction in this block at or past an
    /// address, provided the block's range contains the address.
    pub fn match_address(&self, address: u64) -> (r: Option<&Instruction>)
        ensures
            match r {
                Some(instruction) => spec_first_halt_at_or_after(self.instructions@, address)
                    == Some(*instruction)
                    && self.instructions@.len() > 0
                    && self.instructions@.first().address <= address
                    && address <= self.instructions@.last().address,
                None => !(self.instructions@.len() > 0
                        && self.instructions@.first().address <= address
                        && address <= self.instructions@.last().address)
                    || spec_first_halt_at_or_after(self.instructions@, address) is None,
            },
    {
        if self.contains_address(address) {
            find_halt_at_or_after(&self.instructions, address)
        } else {
            None
        }
    }
}

/// Whether an instruction is a halt point matching a file, a line, and
/// (when given) a column.
pub open spec fn spec_location_matches(
    instruction: Instruction,
    matching_file_index: Option<u64>,
    line: u64,
    column: Option<u64>,
) -> bool {
    instruction.role.spec_is_halt_location()
    && matching_file_index == Some(instruction.file_index)
    && (if line == 0 { None::<u64> } else { Some(line) }) == instruction.line
    && match column {
        Some(c) => ColumnType::spec_from_u64(c) == instruction.column,
        None => true,
    }
}

/// The first instruction of a list matching a location.
pub open spec fn first_matching(
    instrs: Seq<Instruction>,
    matching_file_index: Option<u64>,
    line: u64,
    column: Option<u64>,
) -> Option<Instruction>
    decreases instrs.len(),
{
    if instrs.len() == 0 {
        None
    } else if spec_location_matches(instrs.first(), matching_file_index, line, column) {
        Some(instrs.first())
    } else {
        first_matching(instrs.drop_first(), matching_file_index, line, column)
    }
}

/// Find the first instruction of a block matching a location.
fn find_matching(
    instructions: &Vec<Instruction>,
    matching_file_index: Option<u64>,
    line: u64,
    column: Option<u64>,
) -> (r: Option<&Instruction>)
    ensures
        match r {
            Some(instruction) => first_matching(instructions@, matching_file_index, line, column)
                == Some(*instruction),
            None => first_matching(instructions@, matching_file_index, line, column) is None,
        },
{
    let n = instructions.len();
    let mut i: usize = 0;
    proof {
        assert(instructions@.skip(0) =~= instructions@);
    }
    while i < n
        invariant
            0 <= i <= n,
            n == instructions@.len(),
            first_matching(instructions@, matching_file_index, line, column)
                == first_matching(instructions@.skip(i as int), matching_file_index, line,
                    column),
        decreases n - i,
    {
        let instruction = &instructions[i];
        let halt = instruction.role.is_halt_location();
        let file_matches = match matching_file_index {
            Some(f) => f == instruction.file_index,
            None => false,
        };
        let wanted_line: Option<u64> = if line == 0 {
            None
        } else {
            Some(line)
        };
        let line_matches = crate::instruction::option_u64_eq(wanted_line, instruction.line);
        let column_matches = match column {
            Some(c) => {
                let wanted = ColumnType::from_u64(c);
                match (wanted, instruction.column) {
                    (ColumnType::LeftEdge, ColumnType::LeftEdge) => true,
                    (ColumnType::Column(a), ColumnType::Column(b)) => a == b,
                    _ => false,
                }
            }
            None => true,
        };
        proof {
            let rest = instructions@.skip(i as int);
            assert(rest.first() == instructions@[i as int]);
            assert(rest.drop_first() =~= instructions@.skip(i as int + 1));
        }
        if halt && file_matches && line_matches && column_matches {
            proof {
                assert(spec_location_matches(instructions@[i as int], matching_file_index,
                    line, column));
            }
            return Some(instruction);
        }
        proof {
            assert(!spec_location_matches(instructions@[i as int], matching_file_index,
                line, column));
        }
        i = i + 1;
    }
    proof {
        assert(instructions@.skip(n as int).len() == 0);
    }
    None
}

/// The first halt-eligible instruction of a list whose address is at or
/// past the given one.
pub open spec fn spec_first_halt_at_or_after(
    instrs: Seq<Instruction>,
    address: u64,
) -> Option<Instruction>
    decreases instrs.len(),
{
    if instrs.len() == 0 {
        None
    } else if instrs.first().role.spec_is_halt_location() && instrs.first().address >= address {
        Some(instrs.first())
    } else {
        spec_first_halt_at_or_after(instrs.drop_first(), address)
    }
}

/// Find the first halt-eligible instruction at or past an address.
pub fn find_halt_at_or_after(
    instructions: &Vec<Instruction>,
    address: u64,
) -> (r: Option<&Instruction>)
    ensures
        match r {
            Some(instruction) => spec_first_halt_at_or_after(instructions@, address)
                == Some(*instruction),
            None => spec_first_halt_at_or_after(instructions@, address) is None,
        },
{
    let n = instructions.len();
    let mut i: usize = 0;
    proof {
        assert(instructions@.skip(0) =~= instructions@);
    }
    while i < n
        invariant
            0 <= i <= n,
            n == instructions@.len(),
            spec_first_halt_at_or_after(instructions@, address)
                == spec_first_halt_at_or_after(instructions@.skip(i as int), address),
        decreases n - i,
    {
        let instruction = &instructions[i];
        proof {
            let rest = instructions@.skip(i as int);
            assert(rest.first() == instructions@[i as int]);
            assert(rest.drop_first() =~= instructions@.skip(i as int + 1));
        }
        if instruction.role.is_halt_location() && instruction.address >= address {
            return Some(instruction);
        }
        i = i + 1;
    }
    proof {
        assert(instructions@.skip(n as int).len() == 0);
    }
    None
}

} // verus!
