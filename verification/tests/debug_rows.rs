//! Tests of the line-program decomposer and the breakpoint resolver.

use probe_rs::block::{Block, FunctionDie};
use probe_rs::breakpoint::{
    DebugError, DebugInfo, FileEntry, FilePath, UnitInfo, VerifiedBreakpoint,
    canonical_path_eq, path_names_entry,
};
use probe_rs::instruction::{ColumnType, InstructionRole, LineRow, ProgramLanguage};
use probe_rs::sequence::{LineSequence, Sequence};

fn row(address: u64, line: u64, is_stmt: bool) -> LineRow {
    LineRow {
        address,
        file_index: 0,
        line: if line == 0 { None } else { Some(line) },
        column: ColumnType::LeftEdge,
        is_stmt,
        prologue_end: false,
        epilogue_begin: false,
        end_sequence: false,
    }
}

fn end_row(address: u64) -> LineRow {
    LineRow {
        address,
        file_index: 0,
        line: None,
        column: ColumnType::LeftEdge,
        is_stmt: false,
        prologue_end: false,
        epilogue_begin: false,
        end_sequence: true,
    }
}

fn instructions_of(sequence: &Sequence) -> Vec<(u64, InstructionRole)> {
    let mut out = Vec::new();
    for block in &sequence.blocks {
        for i in &block.instructions {
            out.push((i.address, i.role));
        }
    }
    out.sort_by_key(|(a, _)| *a);
    out
}

#[test]
fn prologue_end_for_c99() {
    // A C99 unit without prologue_end flags: the prologue ends at the
    // first statement row that keeps the file but changes the line.
    let rows = vec![
        row(0x1000, 10, true),
        row(0x1004, 10, true),
        row(0x1008, 11, true),
        row(0x100C, 11, false),
        row(0x1010, 12, true),
        end_row(0x1014),
    ];
    let seq = LineSequence { start: 0x1000, end: 0x1014, rows };
    let dies: Vec<FunctionDie> = Vec::new();
    let sequence = Sequence::from_line_sequence(ProgramLanguage::C99, &dies, &seq);
    let instrs = instructions_of(&sequence);
    assert_eq!(instrs.len(), 5);
    assert_eq!(instrs[0], (0x1000, InstructionRole::Prologue));
    assert_eq!(instrs[1], (0x1004, InstructionRole::Prologue));
    assert_eq!(instrs[2], (0x1008, InstructionRole::HaltPoint));
    assert_eq!(instrs[3], (0x100C, InstructionRole::Other));
    assert_eq!(instrs[4], (0x1010, InstructionRole::HaltPoint));
}

#[test]
fn prologue_stays_open_for_other_language() {
    // The same rows in a non-C unit: without prologue_end nothing ever
    // completes the prologue.
    let rows = vec![row(0x1000, 10, true), row(0x1004, 11, true), end_row(0x1008)];
    let seq = LineSequence { start: 0x1000, end: 0x1008, rows };
    let dies: Vec<FunctionDie> = Vec::new();
    let sequence = Sequence::from_line_sequence(ProgramLanguage::Other, &dies, &seq);
    for (_, role) in instructions_of(&sequence) {
        assert_eq!(role, InstructionRole::Prologue);
    }
}

#[test]
fn line_inheritance_for_line_zero_rows() {
    // A row without a line inherits the previous row's line when it shares
    // file and column with it.
    let mut r1 = row(0x1000, 7, true);
    r1.prologue_end = true;
    let r2 = row(0x1004, 0, false);
    let rows = vec![r1, r2, end_row(0x1008)];
    let seq = LineSequence { start: 0x1000, end: 0x1008, rows };
    let dies: Vec<FunctionDie> = Vec::new();
    let sequence = Sequence::from_line_sequence(ProgramLanguage::Other, &dies, &seq);
    let mut lines = Vec::new();
    for block in &sequence.blocks {
        for i in &block.instructions {
            lines.push((i.address, i.line));
        }
    }
    lines.sort();
    assert_eq!(lines, vec![(0x1000, Some(7)), (0x1004, Some(7))]);
}

#[test]
fn round_trip_addresses() {
    // Flattening all block instructions yields exactly the rows before the
    // end-sequence marker.
    let mut r0 = row(0x100, 1, true);
    r0.prologue_end = true;
    let rows = vec![r0, row(0x104, 2, true), row(0x108, 2, false), row(0x10C, 3, true),
        end_row(0x110)];
    let seq = LineSequence { start: 0x100, end: 0x110, rows: rows.clone() };
    let dies: Vec<FunctionDie> = Vec::new();
    let sequence = Sequence::from_line_sequence(ProgramLanguage::Other, &dies, &seq);
    let instrs = instructions_of(&sequence);
    let addresses: Vec<u64> = instrs.iter().map(|(a, _)| *a).collect();
    assert_eq!(addresses, vec![0x100, 0x104, 0x108, 0x10C]);
    // Blocks are sorted by starting address and non-empty.
    let mut previous_start = None;
    for block in &sequence.blocks {
        assert!(!block.instructions.is_empty());
        let start = block.instructions[0].address;
        if let Some(p) = previous_start {
            assert!(p < start);
        }
        previous_start = Some(start);
    }
    assert_eq!(sequence.address_range.start, 0x100);
    assert_eq!(sequence.address_range.end, 0x110);
}

#[test]
fn inlined_boundary() {
    // An inlined call at [0x1000..0x1010) within the caller
    // [0x0F00..0x1100): the inlined block must step to the caller's next
    // instruction after 0x1010.
    let dies = vec![
        FunctionDie { low_pc: 0x0F00, high_pc: 0x1100, is_inline: false },
        FunctionDie { low_pc: 0x1000, high_pc: 0x1010, is_inline: true },
    ];
    let mut r0 = row(0x0F00, 10, true);
    r0.prologue_end = true;
    let rows = vec![
        r0,
        row(0x0FF0, 11, true),
        row(0x1000, 20, true),
        row(0x1008, 20, true),
        row(0x1010, 11, false),
        row(0x1020, 12, true),
        end_row(0x1100),
    ];
    let seq = LineSequence { start: 0x0F00, end: 0x1100, rows };
    let sequence = Sequence::from_line_sequence(ProgramLanguage::Other, &dies, &seq);

    let inlined: Vec<&Block> = sequence.blocks.iter().filter(|b| b.is_inlined).collect();
    assert_eq!(inlined.len(), 1);
    let inlined_block = inlined[0];
    assert_eq!(inlined_block.instructions.first().unwrap().address, 0x1000);
    assert_eq!(inlined_block.instructions.last().unwrap().address, 0x1008);
    assert_eq!(inlined_block.steps_to, Some(0x1010));

    // The block the inlined region returns into records where it was
    // entered from.
    let return_block = sequence
        .blocks
        .iter()
        .find(|b| b.instructions.first().unwrap().address == 0x1010)
        .expect("block at the return site");
    assert_eq!(return_block.stepped_from, Some(0x1008));
}

fn unix_path(absolute: bool, components: &[&str]) -> FilePath {
    FilePath {
        absolute,
        components: components.iter().map(|c| c.to_string()).collect(),
    }
}

fn breakpoint_fixture() -> DebugInfo {
    let mut r0 = row(0x2000, 41, true);
    r0.prologue_end = true;
    let mut r1 = row(0x2048, 42, true);
    r1.column = ColumnType::Column(5);
    let rows = vec![r0, r1, row(0x2050, 43, true), end_row(0x3000)];
    DebugInfo {
        unit_infos: vec![UnitInfo {
            language: ProgramLanguage::C11,
            file_names: vec![FileEntry {
                directory: unix_path(true, &["a"]),
                name: "b.c".to_string(),
            }],
            function_dies: vec![],
            line_sequences: vec![LineSequence { start: 0x2000, end: 0x3000, rows }],
        }],
    }
}

#[test]
fn breakpoint_by_source_location() {
    let debug_info = breakpoint_fixture();
    let path = unix_path(true, &["a", "b.c"]);
    let vb = VerifiedBreakpoint::for_source_location(&debug_info, &path, 42, Some(5))
        .expect("exact match");
    assert_eq!(vb.address, 0x2048);
    assert_eq!(vb.source_location.line, Some(42));
    assert_eq!(vb.source_location.column, Some(ColumnType::Column(5)));
    assert_eq!(vb.source_location.file.as_deref(), Some("b.c"));
    let directory = vb.source_location.directory.expect("directory");
    assert!(directory.absolute);
    assert_eq!(directory.components, vec!["a".to_string()]);

    // With a column that matches nothing at line 42, the column-ignore
    // fallback returns the same address.
    let vb = VerifiedBreakpoint::for_source_location(&debug_info, &path, 42, Some(99))
        .expect("column-ignore fallback");
    assert_eq!(vb.address, 0x2048);
}

#[test]
fn breakpoint_by_source_location_not_found() {
    let debug_info = breakpoint_fixture();
    let path = unix_path(true, &["a", "other.c"]);
    let err = VerifiedBreakpoint::for_source_location(&debug_info, &path, 42, Some(5))
        .expect_err("no such file");
    match err {
        DebugError::NoBreakpointForLocation { path: p, line, column } => {
            assert_eq!(p.components, vec!["a".to_string(), "other.c".to_string()]);
            assert_eq!(line, 42);
            assert_eq!(column, Some(5));
        }
        DebugError::WarnAndContinue { .. } => panic!("wrong error variant"),
    }
}

#[test]
fn breakpoint_for_address() {
    let debug_info = breakpoint_fixture();
    // A halt point sits exactly at 0x2048: resolving its own address must
    // yield it back.
    let vb = VerifiedBreakpoint::for_address(&debug_info, 0x2048).expect("halt point");
    assert_eq!(vb.address, 0x2048);
    // Between halt points, the next one is taken.
    let vb = VerifiedBreakpoint::for_address(&debug_info, 0x2049).expect("next halt point");
    assert_eq!(vb.address, 0x2050);
    // Outside every sequence the error tells the caller to fall back.
    let err = VerifiedBreakpoint::for_address(&debug_info, 0x9000).expect_err("uncovered");
    assert!(matches!(err, DebugError::WarnAndContinue { .. }));
}

#[test]
fn canonical_paths() {
    let a = unix_path(true, &["a", "b.c"]);
    let b = unix_path(true, &["a", "b.c"]);
    let c = unix_path(false, &["a", "b.c"]);
    let d = unix_path(true, &["a", "c.c"]);
    assert!(canonical_path_eq(&a, &b));
    assert!(!canonical_path_eq(&a, &c));
    assert!(!canonical_path_eq(&a, &d));

    let entry = FileEntry { directory: unix_path(true, &["a"]), name: "b.c".to_string() };
    assert!(path_names_entry(&a, &entry));
    assert!(!path_names_entry(&d, &entry));
    assert!(!path_names_entry(&unix_path(true, &["a"]), &entry));
}

#[test]
fn epilogue_begins_fresh_block() {
    let mut r0 = row(0x100, 1, true);
    r0.prologue_end = true;
    let mut ep = row(0x108, 3, false);
    ep.epilogue_begin = true;
    let rows = vec![r0, row(0x104, 2, true), ep, end_row(0x10C)];
    let seq = LineSequence { start: 0x100, end: 0x10C, rows };
    let dies: Vec<FunctionDie> = Vec::new();
    let sequence = Sequence::from_line_sequence(ProgramLanguage::Other, &dies, &seq);
    let epilogue_block = sequence
        .blocks
        .iter()
        .find(|b| b.instructions.first().unwrap().address == 0x108)
        .expect("epilogue block");
    assert_eq!(epilogue_block.instructions.len(), 1);
    assert_eq!(epilogue_block.instructions[0].role, InstructionRole::EpilogueBegin);
    // The block before the epilogue steps to it.
    let previous = sequence
        .blocks
        .iter()
        .find(|b| b.steps_to == Some(0x108))
        .expect("predecessor links to the epilogue");
    assert_eq!(previous.instructions.last().unwrap().address, 0x104);
}

#[test]
fn no_halt_point_past_address_warns() {
    // A sequence whose only rows are prologue instructions has no halt
    // point at all: the resolver says to fall back to stepping.
    let rows = vec![row(0x4000, 1, true), row(0x4004, 1, true), end_row(0x4008)];
    let debug_info = DebugInfo {
        unit_infos: vec![UnitInfo {
            language: ProgramLanguage::Other,
            file_names: vec![],
            function_dies: vec![],
            line_sequences: vec![LineSequence { start: 0x4000, end: 0x4008, rows }],
        }],
    };
    let err = VerifiedBreakpoint::for_address(&debug_info, 0x4000).expect_err("no halt point");
    assert!(matches!(err, DebugError::WarnAndContinue { .. }));
}

#[test]
fn combined_path_appends_file() {
    let vb = breakpoint_fixture();
    let path = unix_path(true, &["a", "b.c"]);
    let vb = VerifiedBreakpoint::for_source_location(&vb, &path, 42, None).expect("line match");
    let combined = vb.source_location.combined_path().expect("both parts known");
    assert!(combined.absolute);
    assert_eq!(combined.components, vec!["a".to_string(), "b.c".to_string()]);
}

#[test]
fn steps_to_edges_point_at_block_starts() {
    // Every steps_to edge of a decomposition names the start of some block.
    let mut r0 = row(0x100, 1, true);
    r0.prologue_end = false;
    let rows = vec![r0, row(0x104, 2, true), row(0x108, 3, true), end_row(0x10C)];
    let seq = LineSequence { start: 0x100, end: 0x10C, rows };
    let dies: Vec<FunctionDie> = Vec::new();
    let sequence = Sequence::from_line_sequence(ProgramLanguage::C99, &dies, &seq);
    let starts: Vec<u64> = sequence
        .blocks
        .iter()
        .map(|b| b.instructions.first().unwrap().address)
        .collect();
    for block in &sequence.blocks {
        if let Some(target) = block.steps_to {
            assert!(starts.contains(&target));
        }
    }
}
