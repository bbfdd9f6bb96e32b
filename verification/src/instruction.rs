//! Instructions materialized from DWARF line-program rows.
//!
//! One `LineRow` is the plain content of one DWARF line-program row; one
//! `Instruction` is the debugger's view of it: the same address and source
//! coordinates, plus the role the row plays for halting (prologue, halt
//! point, epilogue begin, or none of those).

use vstd::prelude::*;

verus! {

/// A column position in a source line.
#[derive(Debug, Clone, Copy, PartialEq, Eq, Structural)]
pub enum ColumnType {
    /// The row names no column: the left edge of the line.
    LeftEdge,
    /// A one-based column number.
    Column(u64),
}

impl ColumnType {
    /// The column a caller requests by number: 0 means the left edge.
    pub open spec fn spec_from_u64(column: u64) -> ColumnType {
        if column == 0 {
            ColumnType::LeftEdge
        } else {
            ColumnType::Column(column)
        }
    }

    /// Interpret a requested column number.
    pub fn from_u64(column: u64) -> (r: ColumnType)
        ensures
            r == Self::spec_from_u64(column),
    {
        if column == 0 {
            ColumnType::LeftEdge
        } else {
            ColumnType::Column(column)
        }
    }
}

/// The role one instruction plays when looking for places to halt.
#[derive(Debug, Clone, Copy, PartialEq, Eq, Structural)]
pub enum InstructionRole {
    /// Part of the function prologue: never a recommended halt location.
    Prologue,
    /// A DWARF recommended breakpoint location: a statement boundary.
    HaltPoint,
    /// The first instruction of the epilogue, also a legal halt location.
    EpilogueBegin,
    /// Any other instruction.
    Other,
}

impl InstructionRole {
    /// Statement boundaries and epilogue starts are the addresses the
    /// debugger may legally halt at.
    pub open spec fn spec_is_halt_location(self) -> bool {
        self == InstructionRole::HaltPoint || self == InstructionRole::EpilogueBegin
    }

    /// Whether the debugger may halt at an instruction with this role.
    pub fn is_halt_location(&self) -> (r: bool)
        ensures
            r == self.spec_is_halt_location(),
    {
        match self {
            InstructionRole::HaltPoint => true,
            InstructionRole::EpilogueBegin => true,
            _ => false,
        }
    }
}

/// The source language of a compilation unit, as far as the prologue
/// heuristic cares: the C standards get GDB's special treatment, because
/// GCC does not emit `prologue_end` for C.
#[derive(Debug, Clone, Copy, PartialEq, Eq, Structural)]
pub enum ProgramLanguage {
    /// ISO C 1999.
    C99,
    /// ISO C 2011.
    C11,
    /// ISO C 2017.
    C17,
    /// Any other language.
    Other,
}

impl ProgramLanguage {
    /// The languages whose compilers are known to omit `prologue_end`.
    pub open spec fn spec_uses_c_prologue_heuristic(self) -> bool {
        self == ProgramLanguage::C99 || self == ProgramLanguage::C11
            || self == ProgramLanguage::C17
    }

    /// Whether the GDB/GCC prologue heuristic applies to this language.
    pub fn uses_c_prologue_heuristic(&self) -> (r: bool)
        ensures
            r == self.spec_uses_c_prologue_heuristic(),
    {
        match self {
            ProgramLanguage::C99 => true,
            ProgramLanguage::C11 => true,
            ProgramLanguage::C17 => true,
            ProgramLanguage::Other => false,
        }
    }
}

/// The plain content of one DWARF line-program row.
#[derive(Debug, Clone, Copy, PartialEq, Eq, Structural)]
pub struct LineRow {
    /// The address of the machine instruction the row describes.
    pub address: u64,
    /// The index of the source file in the unit's file table.
    pub file_index: u64,
    /// The one-based source line, where the producer recorded one.
    pub line: Option<u64>,
    /// The column within the source line.
    pub column: ColumnType,
    /// Whether the row is a statement boundary.
    pub is_stmt: bool,
    /// Whether the producer marked the prologue as ended here.
    pub prologue_end: bool,
    /// Whether the epilogue begins here.
    pub epilogue_begin: bool,
    /// Whether the row only marks the first address past the sequence.
    pub end_sequence: bool,
}

/// One target machine instruction, as materialized from one line-program
/// row.
#[derive(Debug, Clone, Copy, PartialEq, Eq, Structural)]
pub struct Instruction {
    /// The address of the instruction in target memory.
    pub address: u64,
    /// The index of the source file in the unit's file table.
    pub file_index: u64,
    /// The one-based source line, possibly inherited from the previous row.
    pub line: Option<u64>,
    /// The column within the source line.
    pub column: ColumnType,
    /// The role the instruction plays for halting.
    pub role: InstructionRole,
}

/// Whether a row signals that the prologue is over and user code begins.
///
/// True when the producer set `prologue_end`; for the C standards also when
/// a previous row exists and this row either ends the sequence or is a
/// statement in the same file whose line changed (or disappeared) — the
/// GDB/GCC convention, since GCC does not emit `prologue_end` for C.
pub open spec fn spec_is_prologue_complete(
    row: LineRow,
    program_language: ProgramLanguage,
    previous_row: Option<LineRow>,
) -> bool {
    row.prologue_end || {
        program_language.spec_uses_c_prologue_heuristic() && match previous_row {
            Some(prev_row) => row.end_sequence || (row.is_stmt && row.file_index
                == prev_row.file_index && (row.line != prev_row.line || row.line is None)),
            None => false,
        }
    }
}

/// Test if the current row signals that we are beyond the prologue, and
/// into user code.
pub fn is_prologue_complete(
    row: &LineRow,
    program_language: ProgramLanguage,
    previous_row: Option<&LineRow>,
) -> (r: bool)
    ensures
        r == spec_is_prologue_complete(*row, program_language, spec_copied(previous_row)),
{
    let mut prologue_completed = row.prologue_end;
    if !prologue_completed && program_language.uses_c_prologue_heuristic() {
        if let Some(prev_row) = previous_row {
            if row.end_sequence
                || (row.is_stmt && row.file_index == prev_row.file_index
                    && (!option_u64_eq(row.line, prev_row.line) || row.line.is_none()))
            {
                prologue_completed = true;
            }
        }
    }
    prologue_completed
}

/// An optional row by value, for speaking about an optional reference.
pub open spec fn spec_copied(r: Option<&LineRow>) -> Option<LineRow> {
    match r {
        Some(row) => Some(*row),
        None => None,
    }
}

/// Structural equality of optional line numbers.
pub fn option_u64_eq(a: Option<u64>, b: Option<u64>) -> (r: bool)
    ensures
        r == (a == b),
{
    match (a, b) {
        (Some(x), Some(y)) => x == y,
        (None, None) => true,
        _ => false,
    }
}

/// The line an instruction reports: the row's own line, unless the line is
/// absent while the previous row had one and shares file and column — then
/// the previous line is inherited, so the debugger does not jump to the top
/// of the file on rows the compiler emitted with line 0.
pub open spec fn spec_instruction_line(row: LineRow, previous_row: Option<LineRow>) -> Option<u64> {
    match previous_row {
        Some(prev_row) => {
            if row.line is None && prev_row.line is Some && row.file_index == prev_row.file_index
                && prev_row.column == row.column {
                prev_row.line
            } else {
                row.line
            }
        }
        None => row.line,
    }
}

/// The role a row's instruction plays, given whether the prologue was
/// already complete when the row was reached.
pub open spec fn spec_instruction_role(prologue_completed: bool, row: LineRow) -> InstructionRole {
    if !prologue_completed {
        InstructionRole::Prologue
    } else if row.epilogue_begin {
        InstructionRole::EpilogueBegin
    } else if row.is_stmt {
        InstructionRole::HaltPoint
    } else {
        InstructionRole::Other
    }
}

/// The instruction one row materializes into.
pub open spec fn spec_instruction_from_line_row(
    prologue_completed: bool,
    row: LineRow,
    previous_row: Option<LineRow>,
) -> Instruction {
    Instruction {
        address: row.address,
        file_index: row.file_index,
        line: spec_instruction_line(row, previous_row),
        column: row.column,
        role: spec_instruction_role(prologue_completed, row),
    }
}

impl Instruction {
    /// Materialize one line-program row, inheriting the previous row's line
    /// where the row has none but shares file and column with it.
    pub fn from_line_row(
        prologue_completed: bool,
        row: &LineRow,
        previous_row: Option<&LineRow>,
    ) -> (r: Instruction)
        ensures
            r == spec_instruction_from_line_row(prologue_completed, *row,
                spec_copied(previous_row)),
    {
        let mut instruction_line = row.line;
        if let Some(prev_row) = previous_row {
            if row.line.is_none() && prev_row.line.is_some()
                && row.file_index == prev_row.file_index && prev_row.column == row.column {
                instruction_line = prev_row.line;
            }
        }
        let role = if !prologue_completed {
            InstructionRole::Prologue
        } else if row.epilogue_begin {
            InstructionRole::EpilogueBegin
        } else if row.is_stmt {
            InstructionRole::HaltPoint
        } else {
            InstructionRole::Other
        };
        Instruction {
            address: row.address,
            file_index: row.file_index,
            line: instruction_line,
            column: row.column,
            role,
        }
    }
}

} // verus!
