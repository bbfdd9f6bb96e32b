//! The breakpoint resolver: from a program counter or a source location to
//! a verified halt address with its resolved source location.

use vstd::prelude::*;
use crate::instruction::{Instruction, ColumnType, ProgramLanguage};
use crate::block::{Block, FunctionDie, spec_first_halt_at_or_after, find_halt_at_or_after};
use crate::sequence::{
    LineSequence, Sequence, spec_sequence_instructions, spec_valid_decomposition,
    spec_blocks_sorted, spec_flatten_blocks,
};

verus! {

/// A source path in canonical form: whether it is absolute, and its
/// components with separators already normalized away.
#[derive(Debug, Clone, PartialEq, Eq)]
pub struct FilePath {
    /// Whether the path is absolute.
    pub absolute: bool,
    /// The path components, in order, without separators.
    pub components: Vec<String>,
}

impl FilePath {
    /// The canonical view of a path: its absoluteness and component texts.
    pub open spec fn spec_canonical(self) -> (bool, Seq<Seq<char>>) {
        (self.absolute, self.components@.map(|i: int, c: String| c@))
    }
}

/// Two canonical paths name the same file exactly when they agree on being
/// absolute and their component sequences are identical.
pub open spec fn spec_canonical_path_eq(a: FilePath, b: FilePath) -> bool {
    a.spec_canonical() == b.spec_canonical()
}

/// Compare two canonical paths: equal absoluteness and identical component
/// sequences. No symlink resolution is implied.
pub fn canonical_path_eq(a: &FilePath, b: &FilePath) -> (r: bool)
    ensures
        r == spec_canonical_path_eq(*a, *b),
{
    let ghost av = a.components@.map(|i: int, c: String| c@);
    let ghost bv = b.components@.map(|i: int, c: String| c@);
    if a.absolute != b.absolute {
        return false;
    }
    let n = a.components.len();
    if n != b.components.len() {
        proof {
            assert(av.len() != bv.len());
        }
        return false;
    }
    let mut i: usize = 0;
    while i < n
        invariant
            n == a.components@.len(),
            n == b.components@.len(),
            0 <= i <= n,
            av == a.components@.map(|k: int, c: String| c@),
            bv == b.components@.map(|k: int, c: String| c@),
            forall|k: int| 0 <= k < i ==> av[k] == bv[k],
        decreases n - i,
    {
        if !(a.components[i] == b.components[i]) {
            proof {
                assert(av[i as int] != bv[i as int]);
            }
            return false;
        }
        i = i + 1;
    }
    proof {
        assert(av =~= bv);
    }
    true
}

/// One entry of a unit's file table: the directory it resolves against and
/// the file name.
#[derive(Debug, Clone, PartialEq, Eq)]
pub struct FileEntry {
    /// The directory of the file, canonicalized.
    pub directory: FilePath,
    /// The file name.
    pub name: String,
}

impl FileEntry {
    /// The canonical path the entry names: the directory's components with
    /// the file name appended.
    pub open spec fn spec_full_path(self) -> (bool, Seq<Seq<char>>) {
        (
            self.directory.absolute,
            self.directory.components@.map(|i: int, c: String| c@).push(self.name@),
        )
    }
}

/// Whether a requested path names a file-table entry: the entry's
/// directory components with its file name appended equal the request.
pub open spec fn spec_path_names_entry(path: FilePath, entry: FileEntry) -> bool {
    path.spec_canonical() == entry.spec_full_path()
}

/// Test whether a requested path names a file-table entry.
pub fn path_names_entry(path: &FilePath, entry: &FileEntry) -> (r: bool)
    ensures
        r == spec_path_names_entry(*path, *entry),
{
    let ghost pv = path.components@.map(|i: int, c: String| c@);
    let ghost ev = entry.directory.components@.map(|i: int, c: String| c@).push(entry.name@);
    if path.absolute != entry.directory.absolute {
        return false;
    }
    let dn = entry.directory.components.len();
    let pn = path.components.len();
    if pn == 0 || pn - 1 != dn {
        proof {
            assert(pv.len() == pn && ev.len() == dn + 1);
        }
        return false;
    }
    let mut i: usize = 0;
    while i < dn
        invariant
            dn == entry.directory.components@.len(),
            pn == path.components@.len(),
            pn == dn + 1,
            0 <= i <= dn,
            pv == path.components@.map(|k: int, c: String| c@),
            ev == entry.directory.components@.map(|k: int, c: String| c@).push(entry.name@),
            forall|k: int| 0 <= k < i ==> pv[k] == ev[k],
        decreases dn - i,
    {
        if !(path.components[i] == entry.directory.components[i]) {
            proof {
                assert(pv[i as int] != ev[i as int]);
            }
            return false;
        }
        i = i + 1;
    }
    if !(path.components[pn - 1] == entry.name) {
        proof {
            assert(pv[pn - 1] != ev[pn - 1]);
        }
        return false;
    }
    proof {
        assert(pv =~= ev);
    }
    true
}

/// One compilation unit, as far as breakpoint resolution reads it: its
/// source language, its file table, the subprogram ranges of its DIE tree,
/// and its line sequences.
pub struct UnitInfo {
    /// The source language of the unit.
    pub language: ProgramLanguage,
    /// The file table of the unit's line program.
    pub file_names: Vec<FileEntry>,
    /// The subprogram DIE ranges, outer subprograms before the subroutines
    /// inlined into them.
    pub function_dies: Vec<FunctionDie>,
    /// The line sequences of the unit's line program.
    pub line_sequences: Vec<LineSequence>,
}

/// The debug information of a program: its compilation units.
pub struct DebugInfo {
    /// The compilation units, in debug-section order.
    pub unit_infos: Vec<UnitInfo>,
}

/// An error in resolving debug information.
#[derive(Debug, Clone, PartialEq, Eq)]
pub enum DebugError {
    /// Debug information is missing for the request, and the caller may
    /// fall back to instruction-level stepping; the message says why.
    WarnAndContinue {
        /// What was missing, for the user.
        message: String,
    },
    /// No valid breakpoint exists for the requested source location; the
    /// fields repeat the request verbatim.
    NoBreakpointForLocation {
        /// The requested source path.
        path: FilePath,
        /// The requested line.
        line: u64,
        /// The requested column, where one was given.
        column: Option<u64>,
    },
}

/// A specific location in source code.
#[derive(Debug, Clone, PartialEq, Eq)]
pub struct SourceLocation {
    /// The source line, where the debug information names one.
    pub line: Option<u64>,
    /// The column within the line, where known.
    pub column: Option<ColumnType>,
    /// The file name, where known.
    pub file: Option<String>,
    /// The directory of the file, where known.
    pub directory: Option<FilePath>,
}

/// A source location resolves an instruction through a unit's file table:
/// the instruction's file index is in the table, and the location carries
/// the instruction's line and column together with that entry's file name
/// and directory.
pub open spec fn spec_resolves_location(
    unit_files: Seq<FileEntry>,
    instruction: Instruction,
    loc: SourceLocation,
) -> bool {
    0 <= instruction.file_index < unit_files.len()
    && loc.line == instruction.line
    && loc.column == Some(instruction.column)
    && loc.file == Some(unit_files[instruction.file_index as int].name)
    && match loc.directory {
        Some(d) => d.absolute == unit_files[instruction.file_index as int].directory.absolute
            && d.components@ == unit_files[instruction.file_index as int]
                .directory.components@,
        None => false,
    }
}

/// Copy a canonical path.
pub fn clone_file_path(path: &FilePath) -> (r: FilePath)
    ensures
        r.absolute == path.absolute,
        r.components@ == path.components@,
{
    let n = path.components.len();
    let mut components: Vec<String> = Vec::new();
    let mut i: usize = 0;
    while i < n
        invariant
            0 <= i <= n,
            n == path.components@.len(),
            components@.len() == i,
            forall|k: int| 0 <= k < i ==> components@[k] == path.components@[k],
        decreases n - i,
    {
        components.push(path.components[i].clone());
        i = i + 1;
    }
    proof {
        assert(components@ =~= path.components@);
    }
    FilePath { absolute: path.absolute, components }
}

impl SourceLocation {
    /// Resolve an instruction's file index through the unit's file table.
    pub fn from_instruction(unit: &UnitInfo, instruction: &Instruction)
        -> (r: Option<SourceLocation>)
        ensures
            match r {
                Some(loc) => spec_resolves_location(unit.file_names@, *instruction, loc),
                None => instruction.file_index >= unit.file_names@.len(),
            },
    {
        if instruction.file_index < unit.file_names.len() as u64 {
            let entry = &unit.file_names[instruction.file_index as usize];
            Some(SourceLocation {
                line: instruction.line,
                column: Some(instruction.column),
                file: Some(entry.name.clone()),
                directory: Some(clone_file_path(&entry.directory)),
            })
        } else {
            None
        }
    }

    /// The full canonical path of the source location, where both its
    /// directory and its file name are known.
    pub fn combined_path(&self) -> (r: Option<FilePath>)
        ensures
            match r {
                Some(p) => self.directory is Some && self.file is Some
                    && p.absolute == self.directory->Some_0.absolute
                    && p.components@
                        == self.directory->Some_0.components@.push(self.file->Some_0),
                None => self.directory is None || self.file is None,
            },
    {
        match (&self.directory, &self.file) {
            (Some(directory), Some(file)) => {
                let mut components = clone_file_path(directory).components;
                components.push(file.clone());
                Some(FilePath { absolute: directory.absolute, components })
            }
            _ => None,
        }
    }
}

/// The first line sequence of a unit list covering an address: the unit
/// index and the sequence index within it.
pub open spec fn spec_find_covering(units: Seq<UnitInfo>, address: u64) -> Option<(int, int)>
    decreases units.len(),
{
    if units.len() == 0 {
        None
    } else {
        match spec_find_covering_sequence(units[0].line_sequences@, address) {
            Some(si) => Some((0, si)),
            None => match spec_find_covering(units.drop_first(), address) {
                Some((ui, si)) => Some((ui + 1, si)),
                None => None,
            },
        }
    }
}

/// The first sequence of a list whose address range covers an address.
pub open spec fn spec_find_covering_sequence(seqs: Seq<LineSequence>, address: u64)
    -> Option<int>
    decreases seqs.len(),
{
    if seqs.len() == 0 {
        None
    } else if seqs[0].start <= address < seqs[0].end {
        Some(0)
    } else {
        match spec_find_covering_sequence(seqs.drop_first(), address) {
            Some(si) => Some(si + 1),
            None => None,
        }
    }
}

/// The first halt-eligible instruction at or past an address, searching
/// the blocks in order.
pub open spec fn spec_sequence_halt_at_or_after(blocks: Seq<Block>, address: u64)
    -> Option<Instruction>
    decreases blocks.len(),
{
    if blocks.len() == 0 {
        None
    } else {
        match spec_first_halt_at_or_after(blocks.first().instructions@, address) {
            Some(instruction) => Some(instruction),
            None => spec_sequence_halt_at_or_after(blocks.drop_first(), address),
        }
    }
}

impl Sequence {
    /// The first halt-eligible instruction of the sequence at or past an
    /// address, searching the sorted blocks in order.
    pub fn haltpoint_near_address(&self, address: u64) -> (r: Option<Instruction>)
        ensures
            r == spec_sequence_halt_at_or_after(self.blocks@, address),
    {
        let n = self.blocks.len();
        let mut i: usize = 0;
        proof {
            assert(self.blocks@.skip(0) =~= self.blocks@);
        }
        while i < n
            invariant
                0 <= i <= n,
                n == self.blocks@.len(),
                spec_sequence_halt_at_or_after(self.blocks@, address)
                    == spec_sequence_halt_at_or_after(self.blocks@.skip(i as int), address),
            decreases n - i,
        {
            proof {
                let rest = self.blocks@.skip(i as int);
                assert(rest.first() == self.blocks@[i as int]);
                assert(rest.drop_first() =~= self.blocks@.skip(i as int + 1));
            }
            match find_halt_at_or_after(&self.blocks[i].instructions, address) {
                Some(instruction) => {
                    return Some(*instruction);
                }
                None => {}
            }
            i = i + 1;
        }
        proof {
            assert(self.blocks@.skip(n as int).len() == 0);
        }
        None
    }
}

/// A halt instruction found by the block search carries a halt role and an
/// address at or past the request, and sits in one of the blocks.
pub proof fn lemma_halt_search_found(blocks: Seq<Block>, address: u64, instruction: Instruction)
    requires
        spec_sequence_halt_at_or_after(blocks, address) == Some(instruction),
    ensures
        instruction.role.spec_is_halt_location(),
        instruction.address >= address,
        exists|k: int| 0 <= k < blocks.len()
            && (#[trigger] blocks[k]).instructions@.contains(instruction),
    decreases blocks.len(),
{
    lemma_first_halt_found_in(blocks.first().instructions@, address);
    if spec_first_halt_at_or_after(blocks.first().instructions@, address)
        == Some(instruction) {
        assert(blocks[0].instructions@.contains(instruction));
    } else {
        lemma_halt_search_found(blocks.drop_first(), address, instruction);
        let k0 = choose|k: int| 0 <= k < blocks.drop_first().len()
            && (#[trigger] blocks.drop_first()[k]).instructions@.contains(instruction);
        assert(blocks[k0 + 1].instructions@.contains(instruction));
    }
}

/// The first-halt search within one instruction list: a found instruction
/// is a halt at or past the address and belongs to the list; and where one
/// such instruction exists, the search finds one.
pub proof fn lemma_first_halt_found_in(instrs: Seq<Instruction>, address: u64)
    ensures
        match spec_first_halt_at_or_after(instrs, address) {
            Some(instruction) => instrs.contains(instruction)
                && instruction.role.spec_is_halt_location() && instruction.address >= address,
            None => forall|i: int| 0 <= i < instrs.len()
                ==> !((#[trigger] instrs[i]).role.spec_is_halt_location()
                    && instrs[i].address >= address),
        },
    decreases instrs.len(),
{
    if instrs.len() != 0 {
        lemma_first_halt_found_in(instrs.drop_first(), address);
        match spec_first_halt_at_or_after(instrs, address) {
            Some(instruction) => {
                if !(instrs.first().role.spec_is_halt_location()
                    && instrs.first().address >= address) {
                    assert(instrs.drop_first().contains(instruction));
                    let k = choose|k: int| 0 <= k < instrs.drop_first().len()
                        && instrs.drop_first()[k] == instruction;
                    assert(instrs[k + 1] == instruction);
                }
            }
            None => {
                assert forall|i: int| 0 <= i < instrs.len()
                    implies !((#[trigger] instrs[i]).role.spec_is_halt_location()
                        && instrs[i].address >= address) by {
                    if i > 0 {
                        assert(instrs.drop_first()[i - 1] == instrs[i]);
                    }
                }
            }
        }
    }
}

/// Where the block search finds nothing, no block holds a halt instruction
/// at or past the address.
pub proof fn lemma_halt_search_complete(blocks: Seq<Block>, address: u64)
    requires
        spec_sequence_halt_at_or_after(blocks, address) is None,
    ensures
        forall|k: int, i: int| 0 <= k < blocks.len()
            && 0 <= i < (#[trigger] blocks[k]).instructions@.len()
            ==> !((#[trigger] blocks[k].instructions@[i]).role.spec_is_halt_location()
                && blocks[k].instructions@[i].address >= address),
    decreases blocks.len(),
{
    if blocks.len() != 0 {
        lemma_first_halt_found_in(blocks.first().instructions@, address);
        lemma_halt_search_complete(blocks.drop_first(), address);
        assert forall|k: int, i: int| 0 <= k < blocks.len()
            && 0 <= i < (#[trigger] blocks[k]).instructions@.len()
            implies !((#[trigger] blocks[k].instructions@[i]).role.spec_is_halt_location()
                && blocks[k].instructions@[i].address >= address) by {
            if k > 0 {
                assert(blocks.drop_first()[k - 1] == blocks[k]);
            }
        }
    }
}

/// A found breakpoint for the covering sequence `si` of `unit`: some valid
/// sorted decomposition of that sequence yields it by the halt search, with
/// its source location resolved through the unit's file table.
pub open spec fn spec_halt_for_unit(
    unit: UnitInfo,
    si: int,
    address: u64,
    vb: VerifiedBreakpoint,
) -> bool {
    exists|blocks: Seq<Block>|
        #[trigger] spec_valid_decomposition(blocks,
            spec_sequence_instructions(unit.line_sequences@[si].rows@, unit.language),
            unit.function_dies@)
        && spec_blocks_sorted(blocks)
        && spec_sequence_halt_at_or_after(blocks, address) is Some
        && vb.address == spec_sequence_halt_at_or_after(blocks, address)->Some_0.address
        && spec_resolves_location(unit.file_names@,
            spec_sequence_halt_at_or_after(blocks, address)->Some_0, vb.source_location)
}

/// A verified breakpoint: an address the debugger may halt at, and the
/// source location it corresponds to.
#[derive(Debug, Clone, PartialEq, Eq)]
pub struct VerifiedBreakpoint {
    /// The address in target memory where the breakpoint can be set.
    pub address: u64,
    /// The source location the address resolves to.
    pub source_location: SourceLocation,
}

impl VerifiedBreakpoint {
    /// Return a halt point at or past `address`: find the line sequence
    /// covering the address, decompose it into blocks, and take the first
    /// halt-eligible instruction at or past the address, resolved through
    /// the unit's file table. Where no covering sequence, no halt point or
    /// no file-table entry exists, the error says to fall back to
    /// instruction-level stepping.
    pub fn for_address(debug_info: &DebugInfo, address: u64)
        -> (r: Result<VerifiedBreakpoint, DebugError>)
        ensures
            match r {
                Ok(vb) => ({
                    let cover = spec_find_covering(debug_info.unit_infos@, address);
                    cover is Some
                    && spec_halt_for_unit(debug_info.unit_infos@[cover->Some_0.0],
                        cover->Some_0.1, address, vb)
                    && vb.address >= address
                }),
                Err(e) => e is WarnAndContinue && ({
                    let cover = spec_find_covering(debug_info.unit_infos@, address);
                    cover is None
                    || spec_no_halt_at_or_after(debug_info.unit_infos@[cover->Some_0.0],
                        cover->Some_0.1, address)
                    || spec_halt_unresolvable(debug_info.unit_infos@[cover->Some_0.0],
                        cover->Some_0.1, address)
                }),
            },
    {
        let units = debug_info.unit_infos.len();
        let mut ui: usize = 0;
        proof {
            assert(debug_info.unit_infos@.skip(0) =~= debug_info.unit_infos@);
        }
        while ui < units
            invariant
                0 <= ui <= units,
                units == debug_info.unit_infos@.len(),
                spec_find_covering(debug_info.unit_infos@.skip(ui as int), address)
                    matches Some((u, sq))
                    ==> spec_find_covering(debug_info.unit_infos@, address)
                        == Some((u + ui as int, sq)),
                spec_find_covering(debug_info.unit_infos@.skip(ui as int), address) is None
                    ==> spec_find_covering(debug_info.unit_infos@, address) is None,
            decreases units - ui,
        {
            let unit = &debug_info.unit_infos[ui];
            let seqs = unit.line_sequences.len();
            let mut si: usize = 0;
            proof {
                assert(unit.line_sequences@.skip(0) =~= unit.line_sequences@);
            }
            while si < seqs
                invariant
                    0 <= si <= seqs,
                    units == debug_info.unit_infos@.len(),
                    ui < units,
                    *unit == debug_info.unit_infos@[ui as int],
                    seqs == unit.line_sequences@.len(),
                    spec_find_covering(debug_info.unit_infos@.skip(ui as int), address)
                        matches Some((u, sq))
                        ==> spec_find_covering(debug_info.unit_infos@, address)
                            == Some((u + ui as int, sq)),
                    spec_find_covering_sequence(unit.line_sequences@.skip(si as int), address)
                        matches Some(sq)
                        ==> spec_find_covering_sequence(unit.line_sequences@, address)
                            == Some(sq + si as int),
                    spec_find_covering_sequence(unit.line_sequences@.skip(si as int), address)
                        is None
                        ==> spec_find_covering_sequence(unit.line_sequences@, address) is None,
                decreases seqs - si,
            {
                proof {
                    let rest = unit.line_sequences@.skip(si as int);
                    assert(rest.first() == unit.line_sequences@[si as int]);
                    assert(rest.drop_first() =~= unit.line_sequences@.skip(si as int + 1));
                }
                let line_sequence = &unit.line_sequences[si];
                if line_sequence.start <= address && address < line_sequence.end {
                    let sequence = Sequence::from_line_sequence(unit.language,
                        &unit.function_dies, line_sequence);
                    proof {
                        let rest_seqs = unit.line_sequences@.skip(si as int);
                        assert(spec_find_covering_sequence(rest_seqs, address) == Some(0int));
                        assert(spec_find_covering_sequence(unit.line_sequences@, address)
                            == Some(si as int));
                        let rest_units = debug_info.unit_infos@.skip(ui as int);
                        assert(rest_units.first() == debug_info.unit_infos@[ui as int]);
                        assert(spec_find_covering(rest_units, address)
                            == Some((0int, si as int)));
                        assert(spec_find_covering(debug_info.unit_infos@, address)
                            == Some((ui as int, si as int)));
                    }
                    match sequence.haltpoint_near_address(address) {
                        Some(instruction) => {
                            match SourceLocation::from_instruction(unit, &instruction) {
                                Some(source_location) => {
                                    proof {
                                        lemma_halt_search_found(sequence.blocks@, address,
                                            instruction);
                                    }
                                    let vb = VerifiedBreakpoint {
                                        address: instruction.address,
                                        source_location,
                                    };
                                    proof {
                                        assert(spec_halt_for_unit(
                                            debug_info.unit_infos@[ui as int], si as int,
                                            address, vb));
                                    }
                                    return Ok(vb);
                                }
                                None => {
                                    proof {
                                        assert(spec_halt_unresolvable(
                                            debug_info.unit_infos@[ui as int], si as int,
                                            address));
                                    }
                                    return Err(DebugError::WarnAndContinue {
                                        message: "Could not identify a valid breakpoint for this address. Please consider using instruction level stepping.".to_owned(),
                                    });
                                }
                            }
                        }
                        None => {
                            proof {
                                lemma_no_halt_in_materialized(sequence.blocks@,
                                    spec_sequence_instructions(
                                        unit.line_sequences@[si as int].rows@,
                                        unit.language),
                                    unit.function_dies@, address);
                                assert(spec_no_halt_at_or_after(
                                    debug_info.unit_infos@[ui as int], si as int, address));
                            }
                            return Err(DebugError::WarnAndContinue {
                                message: "Could not identify a valid breakpoint for this address. Please consider using instruction level stepping.".to_owned(),
                            });
                        }
                    }
                }
                si = si + 1;
            }
            proof {
                let rest_units = debug_info.unit_infos@.skip(ui as int);
                assert(rest_units.first() == debug_info.unit_infos@[ui as int]);
                assert(rest_units.drop_first() =~= debug_info.unit_infos@.skip(ui as int + 1));
                assert(unit.line_sequences@.skip(seqs as int).len() == 0);
                assert(spec_find_covering_sequence(unit.line_sequences@, address) is None);
            }
            ui = ui + 1;
        }
        proof {
            assert(debug_info.unit_infos@.skip(units as int).len() == 0);
        }
        Err(DebugError::WarnAndContinue {
            message: "The specified source location does not have any line information available. Please consider using instruction level stepping.".to_owned(),
        })
    }
}


/// The first index of a unit's file table that a requested path names.
pub open spec fn spec_matching_file_index(files: Seq<FileEntry>, path: FilePath) -> Option<int>
    decreases files.len(),
{
    if files.len() == 0 {
        None
    } else if spec_path_names_entry(path, files.first()) {
        Some(0)
    } else {
        match spec_matching_file_index(files.drop_first(), path) {
            Some(fi) => Some(fi + 1),
            None => None,
        }
    }
}

/// Find the first file-table entry a requested path names.
pub fn matching_file_index(files: &Vec<FileEntry>, path: &FilePath) -> (r: Option<usize>)
    ensures
        match r {
            Some(fi) => Some(fi as int) == spec_matching_file_index(files@, *path)
                && fi < files@.len(),
            None => spec_matching_file_index(files@, *path) is None,
        },
{
    let n = files.len();
    let mut i: usize = 0;
    proof {
        assert(files@.skip(0) =~= files@);
    }
    while i < n
        invariant
            0 <= i <= n,
            n == files@.len(),
            spec_matching_file_index(files@.skip(i as int), *path) matches Some(fi)
                ==> spec_matching_file_index(files@, *path) == Some(fi + i as int),
            spec_matching_file_index(files@.skip(i as int), *path) is None
                ==> spec_matching_file_index(files@, *path) is None,
        decreases n - i,
    {
        proof {
            let rest = files@.skip(i as int);
            assert(rest.first() == files@[i as int]);
            assert(rest.drop_first() =~= files@.skip(i as int + 1));
        }
        if path_names_entry(path, &files[i]) {
            proof {
                assert(spec_matching_file_index(files@.skip(i as int), *path) == Some(0int));
            }
            return Some(i);
        }
        i = i + 1;
    }
    proof {
        assert(files@.skip(n as int).len() == 0);
    }
    None
}

/// The first location match of the blocks, searching them in order.
pub open spec fn spec_sequence_match_location(
    blocks: Seq<Block>,
    matching_file_index: Option<u64>,
    line: u64,
    column: Option<u64>,
) -> Option<Instruction>
    decreases blocks.len(),
{
    if blocks.len() == 0 {
        None
    } else {
        match Block::spec_match_location(blocks.first().instructions@, matching_file_index,
            line, column) {
            Some(instruction) => Some(instruction),
            None => spec_sequence_match_location(blocks.drop_first(), matching_file_index,
                line, column),
        }
    }
}

impl Sequence {
    /// The first instruction of the sequence matching a source location,
    /// searching the sorted blocks in order; within each block an exact
    /// column match is preferred, then the column is ignored.
    pub fn match_location(
        &self,
        matching_file_index: Option<u64>,
        line: u64,
        column: Option<u64>,
    ) -> (r: Option<Instruction>)
        ensures
            r == spec_sequence_match_location(self.blocks@, matching_file_index, line, column),
    {
        let n = self.blocks.len();
        let mut i: usize = 0;
        proof {
            assert(self.blocks@.skip(0) =~= self.blocks@);
        }
        while i < n
            invariant
                0 <= i <= n,
                n == self.blocks@.len(),
                spec_sequence_match_location(self.blocks@, matching_file_index, line, column)
                    == spec_sequence_match_location(self.blocks@.skip(i as int),
                        matching_file_index, line, column),
            decreases n - i,
        {
            proof {
                let rest = self.blocks@.skip(i as int);
                assert(rest.first() == self.blocks@[i as int]);
                assert(rest.drop_first() =~= self.blocks@.skip(i as int + 1));
            }
            match self.blocks[i].match_location(matching_file_index, line, column) {
                Some(instruction) => {
                    return Some(*instruction);
                }
                None => {}
            }
            i = i + 1;
        }
        proof {
            assert(self.blocks@.skip(n as int).len() == 0);
        }
        None
    }
}

/// Whether an instruction is a halt point on the requested file and line;
/// the column does not matter for whether any match exists, because the
/// search always falls back to ignoring it.
pub open spec fn spec_line_match(instruction: Instruction, fi: u64, line: u64) -> bool {
    crate::block::spec_location_matches(instruction, Some(fi), line, None)
}

/// A found location match is an element of the searched list and matches
/// the file and line; where none is found, no element matches them.
pub proof fn lemma_first_matching_complete(
    instrs: Seq<Instruction>,
    fi: u64,
    line: u64,
    column: Option<u64>,
)
    ensures
        match crate::block::first_matching(instrs, Some(fi), line, column) {
            Some(instruction) => instrs.contains(instruction)
                && spec_line_match(instruction, fi, line),
            None => column is None
                ==> forall|i: int| 0 <= i < instrs.len()
                    ==> !spec_line_match(#[trigger] instrs[i], fi, line),
        },
    decreases instrs.len(),
{
    if instrs.len() != 0 {
        lemma_first_matching_complete(instrs.drop_first(), fi, line, column);
        match crate::block::first_matching(instrs, Some(fi), line, column) {
            Some(instruction) => {
                if !crate::block::spec_location_matches(instrs.first(), Some(fi), line,
                    column) {
                    assert(instrs.drop_first().contains(instruction));
                    let k = choose|k: int| 0 <= k < instrs.drop_first().len()
                        && instrs.drop_first()[k] == instruction;
                    assert(instrs[k + 1] == instruction);
                }
            }
            None => {
                if column is None {
                    assert forall|i: int| 0 <= i < instrs.len()
                        implies !spec_line_match(#[trigger] instrs[i], fi, line) by {
                        if i > 0 {
                            assert(instrs.drop_first()[i - 1] == instrs[i]);
                        }
                    }
                }
            }
        }
    }
}

/// A block's location match is an element of the block matching file and
/// line; where none is found, no instruction of the block matches them.
pub proof fn lemma_block_match_complete(
    instrs: Seq<Instruction>,
    fi: u64,
    line: u64,
    column: Option<u64>,
)
    ensures
        match Block::spec_match_location(instrs, Some(fi), line, column) {
            Some(instruction) => instrs.contains(instruction)
                && spec_line_match(instruction, fi, line),
            None => forall|i: int| 0 <= i < instrs.len()
                ==> !spec_line_match(#[trigger] instrs[i], fi, line),
        },
{
    match column {
        Some(c) => {
            lemma_first_matching_complete(instrs, fi, line, Some(c));
            lemma_first_matching_complete(instrs, fi, line, None);
        }
        None => {
            lemma_first_matching_complete(instrs, fi, line, None);
        }
    }
}

/// A sequence-level location match is an element of some block matching
/// file and line; where none is found, no block instruction matches them.
pub proof fn lemma_sequence_match_complete(
    blocks: Seq<Block>,
    fi: u64,
    line: u64,
    column: Option<u64>,
)
    ensures
        match spec_sequence_match_location(blocks, Some(fi), line, column) {
            Some(instruction) => spec_line_match(instruction, fi, line)
                && exists|k: int| 0 <= k < blocks.len()
                    && (#[trigger] blocks[k]).instructions@.contains(instruction),
            None => forall|k: int, i: int| 0 <= k < blocks.len()
                && 0 <= i < (#[trigger] blocks[k]).instructions@.len()
                ==> !spec_line_match(#[trigger] blocks[k].instructions@[i], fi, line),
        },
    decreases blocks.len(),
{
    if blocks.len() != 0 {
        lemma_block_match_complete(blocks.first().instructions@, fi, line, column);
        lemma_sequence_match_complete(blocks.drop_first(), fi, line, column);
        match spec_sequence_match_location(blocks, Some(fi), line, column) {
            Some(instruction) => {
                if Block::spec_match_location(blocks.first().instructions@, Some(fi), line,
                    column) == Some(instruction) {
                    assert(blocks[0].instructions@.contains(instruction));
                } else {
                    let k0 = choose|k: int| 0 <= k < blocks.drop_first().len()
                        && (#[trigger] blocks.drop_first()[k]).instructions@
                            .contains(instruction);
                    assert(blocks[k0 + 1].instructions@.contains(instruction));
                }
            }
            None => {
                assert forall|k: int, i: int| 0 <= k < blocks.len()
                    && 0 <= i < (#[trigger] blocks[k]).instructions@.len()
                    implies !spec_line_match(#[trigger] blocks[k].instructions@[i], fi,
                        line) by {
                    if k > 0 {
                        assert(blocks.drop_first()[k - 1] == blocks[k]);
                    }
                }
            }
        }
    }
}

/// An element of a flattened block list sits in one of the blocks.
pub proof fn lemma_flatten_member(blocks: Seq<Block>, x: Instruction)
    requires
        spec_flatten_blocks(blocks).contains(x),
    ensures
        exists|k: int| 0 <= k < blocks.len()
            && (#[trigger] blocks[k]).instructions@.contains(x),
    decreases blocks.len(),
{
    if blocks.len() != 0 {
        let flat = spec_flatten_blocks(blocks);
        let head = blocks.first().instructions@;
        let rest = spec_flatten_blocks(blocks.drop_first());
        let p = choose|p: int| 0 <= p < flat.len() && flat[p] == x;
        if p < head.len() {
            assert(head[p] == x);
            assert(blocks[0].instructions@.contains(x));
        } else {
            assert(rest[p - head.len()] == x);
            assert(rest.contains(x));
            lemma_flatten_member(blocks.drop_first(), x);
            let k0 = choose|k: int| 0 <= k < blocks.drop_first().len()
                && (#[trigger] blocks.drop_first()[k]).instructions@.contains(x);
            assert(blocks[k0 + 1].instructions@.contains(x));
        }
    }
}

/// Where a valid decomposition's location search finds nothing, no
/// materialized instruction matches the file and line at all.
pub proof fn lemma_no_match_in_materialized(
    blocks: Seq<Block>,
    m: Seq<Instruction>,
    dies: Seq<FunctionDie>,
    fi: u64,
    line: u64,
    column: Option<u64>,
)
    requires
        spec_valid_decomposition(blocks, m, dies),
        spec_sequence_match_location(blocks, Some(fi), line, column) is None,
    ensures
        forall|i: int| 0 <= i < m.len() ==> !spec_line_match(#[trigger] m[i], fi, line),
{
    broadcast use vstd::seq_lib::group_to_multiset_ensures;

    lemma_sequence_match_complete(blocks, fi, line, column);
    assert forall|i: int| 0 <= i < m.len()
        implies !spec_line_match(#[trigger] m[i], fi, line) by {
        let x = m[i];
        assert(m.contains(x));
        assert(m.to_multiset().count(x) > 0);
        assert(spec_flatten_blocks(blocks).to_multiset().count(x) > 0);
        assert(spec_flatten_blocks(blocks).contains(x));
        lemma_flatten_member(blocks, x);
        let k = choose|k: int| 0 <= k < blocks.len()
            && (#[trigger] blocks[k]).instructions@.contains(x);
        let q = choose|q: int| 0 <= q < blocks[k].instructions@.len()
            && blocks[k].instructions@[q] == x;
        assert(!spec_line_match(blocks[k].instructions@[q], fi, line));
    }
}

/// Where a valid decomposition's halt search finds nothing, no materialized
/// instruction is a halt point at or past the address.
pub proof fn lemma_no_halt_in_materialized(
    blocks: Seq<Block>,
    m: Seq<Instruction>,
    dies: Seq<FunctionDie>,
    address: u64,
)
    requires
        spec_valid_decomposition(blocks, m, dies),
        spec_sequence_halt_at_or_after(blocks, address) is None,
    ensures
        forall|i: int| 0 <= i < m.len()
            ==> !((#[trigger] m[i]).role.spec_is_halt_location() && m[i].address >= address),
{
    broadcast use vstd::seq_lib::group_to_multiset_ensures;

    lemma_halt_search_complete(blocks, address);
    assert forall|i: int| 0 <= i < m.len()
        implies !((#[trigger] m[i]).role.spec_is_halt_location()
            && m[i].address >= address) by {
        let x = m[i];
        assert(m.contains(x));
        assert(m.to_multiset().count(x) > 0);
        assert(spec_flatten_blocks(blocks).to_multiset().count(x) > 0);
        assert(spec_flatten_blocks(blocks).contains(x));
        lemma_flatten_member(blocks, x);
        let k = choose|k: int| 0 <= k < blocks.len()
            && (#[trigger] blocks[k]).instructions@.contains(x);
        let q = choose|q: int| 0 <= q < blocks[k].instructions@.len()
            && blocks[k].instructions@[q] == x;
        assert(!(blocks[k].instructions@[q].role.spec_is_halt_location()
            && blocks[k].instructions@[q].address >= address));
    }
}

/// No instruction of sequence `si` of a unit is a halt point on file `fi`
/// and the requested line.
pub open spec fn spec_sequence_no_match(unit: UnitInfo, si: int, fi: u64, line: u64) -> bool {
    forall|i: int| 0 <= i < spec_sequence_instructions(unit.line_sequences@[si].rows@,
        unit.language).len()
        ==> !spec_line_match(#[trigger] spec_sequence_instructions(
            unit.line_sequences@[si].rows@, unit.language)[i], fi, line)
}

/// Where a unit's file table is named by the path, none of its sequences
/// materializes a halt point on that file and the requested line.
pub open spec fn spec_unit_no_match(unit: UnitInfo, path: FilePath, line: u64) -> bool {
    spec_matching_file_index(unit.file_names@, path) is Some
        ==> forall|si: int| 0 <= si < unit.line_sequences@.len()
            ==> #[trigger] spec_sequence_no_match(unit, si,
                spec_matching_file_index(unit.file_names@, path)->Some_0 as u64, line)
}

/// No halt point on the requested file and line exists anywhere in the
/// debug information.
pub open spec fn spec_no_location_match(
    units: Seq<UnitInfo>,
    path: FilePath,
    line: u64,
) -> bool {
    forall|ui: int| 0 <= ui < units.len()
        ==> #[trigger] spec_unit_no_match(units[ui], path, line)
}

/// No instruction of sequence `si` of a unit is a halt point at or past an
/// address.
pub open spec fn spec_no_halt_at_or_after(unit: UnitInfo, si: int, address: u64) -> bool {
    forall|i: int| 0 <= i < spec_sequence_instructions(unit.line_sequences@[si].rows@,
        unit.language).len()
        ==> !((#[trigger] spec_sequence_instructions(unit.line_sequences@[si].rows@,
                unit.language)[i]).role.spec_is_halt_location()
            && spec_sequence_instructions(unit.line_sequences@[si].rows@,
                unit.language)[i].address >= address)
}

/// Some valid sorted decomposition of sequence `si` finds a halt point at
/// or past the address whose file index misses the unit's file table, so
/// no source location can be resolved for it.
pub open spec fn spec_halt_unresolvable(unit: UnitInfo, si: int, address: u64) -> bool {
    exists|blocks: Seq<Block>|
        #[trigger] spec_valid_decomposition(blocks,
            spec_sequence_instructions(unit.line_sequences@[si].rows@, unit.language),
            unit.function_dies@)
        && spec_blocks_sorted(blocks)
        && spec_sequence_halt_at_or_after(blocks, address) is Some
        && spec_sequence_halt_at_or_after(blocks, address)->Some_0.file_index
            >= unit.file_names@.len()
}

/// A found breakpoint for a source location within sequence `si` of `unit`:
/// the path names the unit's file `fi`, and some valid sorted decomposition
/// of that sequence yields the instruction by the location search.
pub open spec fn spec_location_for_unit(
    unit: UnitInfo,
    si: int,
    path: FilePath,
    line: u64,
    column: Option<u64>,
    vb: VerifiedBreakpoint,
) -> bool {
    spec_matching_file_index(unit.file_names@, path) is Some
    && exists|blocks: Seq<Block>|
        #[trigger] spec_valid_decomposition(blocks,
            spec_sequence_instructions(unit.line_sequences@[si].rows@, unit.language),
            unit.function_dies@)
        && spec_blocks_sorted(blocks)
        && spec_sequence_match_location(blocks,
            Some(spec_matching_file_index(unit.file_names@, path)->Some_0 as u64), line,
            column) is Some
        && vb.address == spec_sequence_match_location(blocks,
            Some(spec_matching_file_index(unit.file_names@, path)->Some_0 as u64), line,
            column)->Some_0.address
        && spec_resolves_location(unit.file_names@,
            spec_sequence_match_location(blocks,
                Some(spec_matching_file_index(unit.file_names@, path)->Some_0 as u64), line,
                column)->Some_0, vb.source_location)
}

impl VerifiedBreakpoint {
    /// Resolve a breakpoint for a source location: find the units whose
    /// file table contains the requested path, and within their sequences
    /// the first halt point on that file and line — with the exact column
    /// preferred, then the column ignored. Where nothing matches, the
    /// error repeats the requested location verbatim.
    pub fn for_source_location(
        debug_info: &DebugInfo,
        path: &FilePath,
        line: u64,
        column: Option<u64>,
    ) -> (r: Result<VerifiedBreakpoint, DebugError>)
        ensures
            match r {
                Ok(vb) => exists|ui: int, si: int| 0 <= ui < debug_info.unit_infos@.len()
                    && 0 <= si < debug_info.unit_infos@[ui].line_sequences@.len()
                    && #[trigger] spec_location_for_unit(debug_info.unit_infos@[ui], si,
                        *path, line, column, vb),
                Err(e) => e matches DebugError::NoBreakpointForLocation {
                        path: p, line: l, column: c }
                    && p.absolute == path.absolute && p.components@ == path.components@
                    && l == line && c == column
                    && spec_no_location_match(debug_info.unit_infos@, *path, line),
            },
    {
        let units = debug_info.unit_infos.len();
        let mut ui: usize = 0;
        while ui < units
            invariant
                0 <= ui <= units,
                units == debug_info.unit_infos@.len(),
                forall|uj: int| 0 <= uj < ui
                    ==> #[trigger] spec_unit_no_match(debug_info.unit_infos@[uj], *path, line),
            decreases units - ui,
        {
            let unit = &debug_info.unit_infos[ui];
            match matching_file_index(&unit.file_names, path) {
                Some(fi) => {
                    let seqs = unit.line_sequences.len();
                    let mut si: usize = 0;
                    while si < seqs
                        invariant
                            0 <= si <= seqs,
                            units == debug_info.unit_infos@.len(),
                            ui < units,
                            *unit == debug_info.unit_infos@[ui as int],
                            seqs == unit.line_sequences@.len(),
                            Some(fi as int)
                                == spec_matching_file_index(unit.file_names@, *path),
                            fi < unit.file_names@.len(),
                            forall|sj: int| 0 <= sj < si
                                ==> #[trigger] spec_sequence_no_match(
                                    debug_info.unit_infos@[ui as int], sj, fi as u64, line),
                        decreases seqs - si,
                    {
                        let line_sequence = &unit.line_sequences[si];
                        let sequence = Sequence::from_line_sequence(unit.language,
                            &unit.function_dies, line_sequence);
                        match sequence.match_location(Some(fi as u64), line, column) {
                            Some(instruction) => {
                                proof {
                                    lemma_sequence_match_complete(sequence.blocks@,
                                        fi as u64, line, column);
                                }
                                match SourceLocation::from_instruction(unit, &instruction) {
                                    Some(source_location) => {
                                        let vb = VerifiedBreakpoint {
                                            address: instruction.address,
                                            source_location,
                                        };
                                        proof {
                                            assert(spec_location_for_unit(
                                                debug_info.unit_infos@[ui as int],
                                                si as int, *path, line, column, vb));
                                        }
                                        return Ok(vb);
                                    }
                                    None => {
                                        proof {
                                            assert(instruction.file_index == fi as u64);
                                            assert(false);
                                        }
                                    }
                                }
                            }
                            None => {
                                proof {
                                    lemma_no_match_in_materialized(sequence.blocks@,
                                        spec_sequence_instructions(
                                            unit.line_sequences@[si as int].rows@,
                                            unit.language),
                                        unit.function_dies@, fi as u64, line, column);
                                    assert(spec_sequence_no_match(
                                        debug_info.unit_infos@[ui as int], si as int,
                                        fi as u64, line));
                                }
                            }
                        }
                        si = si + 1;
                    }
                    proof {
                        assert(spec_unit_no_match(debug_info.unit_infos@[ui as int], *path,
                            line));
                    }
                }
                None => {
                    proof {
                        assert(spec_unit_no_match(debug_info.unit_infos@[ui as int], *path,
                            line));
                    }
                }
            }
            ui = ui + 1;
        }
        Err(DebugError::NoBreakpointForLocation {
            path: clone_file_path(path),
            line,
            column,
        })
    }
}

} // verus!
