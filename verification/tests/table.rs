use ehframe_bpf_compiler::ast::{MachineRegister, Register, UnwindTable, UnwindTableRow};
use ehframe_bpf_compiler::extract::{
    register_rule, CfaEncoding, DecodedEntry, DecodedRow, RuleEncoding, SectionAddresses,
};

fn tagged(start: usize, end: usize, tag: isize) -> UnwindTableRow {
    UnwindTableRow {
        start_address: start,
        end_address: end,
        cfa: Register::Register(MachineRegister::Rsp, tag),
        rbp: Register::Undefined,
        ra: Register::CfaOffset(-8),
    }
}

#[test]
fn rows_are_sorted_by_start() {
    let rows = vec![tagged(0x30, 0x40, 1), tagged(0x10, 0x20, 2), tagged(0x20, 0x30, 3), tagged(0x0, 0x10, 4)];
    let table = UnwindTable::from_rows(rows);
    let starts: Vec<usize> = table.rows.iter().map(|r| r.start_address).collect();
    assert_eq!(starts, vec![0x0, 0x10, 0x20, 0x30]);
    let tags: Vec<Register> = table.rows.iter().map(|r| r.cfa).collect();
    assert_eq!(
        tags,
        vec![
            Register::Register(MachineRegister::Rsp, 4),
            Register::Register(MachineRegister::Rsp, 2),
            Register::Register(MachineRegister::Rsp, 3),
            Register::Register(MachineRegister::Rsp, 1),
        ]
    );
}

#[test]
fn sorted_rows_do_not_overlap() {
    let rows = vec![tagged(0x50, 0x58, 0), tagged(0x0, 0x10, 0), tagged(0x20, 0x30, 0), tagged(0x10, 0x20, 0)];
    let table = UnwindTable::from_rows(rows);
    for pair in table.rows.windows(2) {
        assert!(pair[0].start_address <= pair[1].start_address);
        assert!(pair[0].end_address <= pair[1].start_address);
    }
}

#[test]
fn equal_starts_keep_their_order() {
    let rows = vec![
        tagged(0x10, 0x20, 1),
        tagged(0x0, 0x10, 2),
        tagged(0x10, 0x18, 3),
        tagged(0x0, 0x8, 4),
        tagged(0x10, 0x1c, 5),
    ];
    let table = UnwindTable::from_rows(rows);
    let tags: Vec<Register> = table.rows.iter().map(|r| r.cfa).collect();
    let expected: Vec<Register> =
        [2, 4, 1, 3, 5].iter().map(|t| Register::Register(MachineRegister::Rsp, *t)).collect();
    assert_eq!(tags, expected);
}

#[test]
fn nothing_is_merged_or_dropped() {
    let rows = vec![tagged(0x0, 0x10, 1), tagged(0x0, 0x10, 1), tagged(0x40, 0x41, 2)];
    let table = UnwindTable::from_rows(rows.clone());
    assert_eq!(table.rows, rows);
    assert_eq!(UnwindTable::from_rows(vec![]).rows, vec![]);
}

#[test]
fn sorted_input_stays() {
    let rows = vec![tagged(0x0, 0x10, 1), tagged(0x10, 0x20, 2)];
    assert_eq!(UnwindTable::from_rows(rows.clone()), UnwindTable { rows });
}

fn decoded(cfa: CfaEncoding, rbp: Option<RuleEncoding>, ra: Option<RuleEncoding>) -> DecodedRow {
    DecodedRow { start_address: 0x401000, end_address: 0x401004, cfa, rbp, ra }
}

#[test]
fn decoded_rules_enter_the_model() {
    let row = UnwindTableRow::parse(&decoded(
        CfaEncoding::RegisterAndOffset { register: 7, offset: 16 },
        Some(RuleEncoding::Offset(-16)),
        Some(RuleEncoding::Offset(-8)),
    ));
    assert_eq!(
        row,
        UnwindTableRow {
            start_address: 0x401000,
            end_address: 0x401004,
            cfa: Register::Register(MachineRegister::Rsp, 16),
            rbp: Register::CfaOffset(-16),
            ra: Register::CfaOffset(-8),
        }
    );
}

#[test]
fn undefined_and_other_rules() {
    let row = UnwindTableRow::parse(&decoded(
        CfaEncoding::RegisterAndOffset { register: 6, offset: -32 },
        Some(RuleEncoding::Undefined),
        Some(RuleEncoding::SameValue),
    ));
    assert_eq!(row.cfa, Register::Register(MachineRegister::Rbp, -32));
    assert_eq!(row.rbp, Register::Undefined);
    assert_eq!(row.ra, Register::Unimplemented);
}

#[test]
fn expression_is_taken_for_the_plt_formula() {
    let row = UnwindTableRow::parse(&decoded(CfaEncoding::Expression, None, None));
    assert_eq!(row.cfa, Register::PltExpr);
}

#[test]
fn unmodelled_base_register_is_unsupported() {
    let row = UnwindTableRow::parse(&decoded(
        CfaEncoding::RegisterAndOffset { register: 10, offset: 0 },
        None,
        Some(RuleEncoding::Offset(-8)),
    ));
    assert_eq!(row.cfa, Register::Unimplemented);
    assert_eq!(row.rbp, Register::Undefined);
    let mut leaf = String::new();
    row.gen(&mut leaf);
    assert_eq!(leaf, "out_ctx->rip = deref(out_ctx->rsp + -8);\nout_ctx->flags = 129u;\nreturn;\n");
}

#[test]
fn dwarf_numbers_of_the_machine_registers() {
    assert_eq!(MachineRegister::from_dwarf(7), Some(MachineRegister::Rsp));
    assert_eq!(MachineRegister::from_dwarf(6), Some(MachineRegister::Rbp));
    assert_eq!(MachineRegister::from_dwarf(16), Some(MachineRegister::Ra));
    assert_eq!(MachineRegister::from_dwarf(0), None);
    assert_eq!(MachineRegister::from_dwarf(3), None);
    assert_eq!(MachineRegister::from_dwarf(17), None);
    assert_eq!(MachineRegister::from_dwarf(u16::MAX), None);
}

#[test]
fn rule_encodings_alone() {
    assert_eq!(register_rule(&None), Register::Undefined);
    assert_eq!(register_rule(&Some(RuleEncoding::Undefined)), Register::Undefined);
    assert_eq!(register_rule(&Some(RuleEncoding::Offset(24))), Register::CfaOffset(24));
    assert_eq!(register_rule(&Some(RuleEncoding::Offset(-8))), Register::CfaOffset(-8));
    for other in [
        RuleEncoding::SameValue,
        RuleEncoding::ValOffset(8),
        RuleEncoding::Register(3),
        RuleEncoding::Expression,
        RuleEncoding::ValExpression,
        RuleEncoding::Architectural,
        RuleEncoding::Constant(1),
    ] {
        assert_eq!(register_rule(&Some(other)), Register::Unimplemented);
    }
}

#[test]
fn cfa_encodings_alone() {
    assert_eq!(
        CfaEncoding::RegisterAndOffset { register: 16, offset: 8 }.to_register(),
        Register::Register(MachineRegister::Ra, 8)
    );
    assert_eq!(CfaEncoding::RegisterAndOffset { register: 0, offset: 8 }.to_register(), Register::Unimplemented);
    assert_eq!(CfaEncoding::Expression.to_register(), Register::PltExpr);
}

#[test]
fn parsed_rows_build_a_table() {
    let late = decoded(CfaEncoding::RegisterAndOffset { register: 7, offset: 8 }, None, Some(RuleEncoding::Offset(-8)));
    let early = DecodedRow { start_address: 0x1000, end_address: 0x1004, ..late };
    let table = UnwindTable::from_rows(vec![UnwindTableRow::parse(&late), UnwindTableRow::parse(&early)]);
    assert_eq!(table.rows[0].start_address, 0x1000);
    assert_eq!(table.rows[1].start_address, 0x401000);
    assert_eq!(table.rows, vec![UnwindTableRow::parse(&early), UnwindTableRow::parse(&late)]);
    assert_eq!(UnwindTable::parse(&[DecodedEntry::Fde(vec![late, early])]), table);
    assert_eq!(UnwindTable::parse(&[DecodedEntry::Fde(vec![late]), DecodedEntry::Fde(vec![early])]), table);
    assert_eq!(UnwindTable::parse(&[]).rows, vec![]);
    assert_eq!(UnwindTable::parse(&[DecodedEntry::Cie]).rows, vec![]);
}

#[test]
fn all_sections_give_all_bases() {
    let sections = SectionAddresses {
        eh_frame_hdr: Some(0x2000),
        eh_frame: Some(0x2100),
        text: Some(0x1000),
        got: Some(0x3000),
    };
    let bases = sections.bases();
    assert_eq!(bases.eh_frame_hdr.section, Some(0x2000));
    assert_eq!(bases.eh_frame_hdr.text, Some(0x1000));
    assert_eq!(bases.eh_frame_hdr.data, Some(0x2000));
    assert_eq!(bases.eh_frame.section, Some(0x2100));
    assert_eq!(bases.eh_frame.text, Some(0x1000));
    assert_eq!(bases.eh_frame.data, Some(0x3000));
    let same = gimli::BaseAddresses::default()
        .set_eh_frame_hdr(0x2000)
        .set_eh_frame(0x2100)
        .set_text(0x1000)
        .set_got(0x3000);
    assert_eq!(bases, same);
}

#[test]
fn missing_sections_leave_bases_unknown() {
    let none = SectionAddresses { eh_frame_hdr: None, eh_frame: None, text: None, got: None };
    assert_eq!(none.bases(), gimli::BaseAddresses::default());
    let only = SectionAddresses { eh_frame: Some(0x40), ..none };
    let bases = only.bases();
    assert_eq!(bases.eh_frame.section, Some(0x40));
    assert_eq!(bases.eh_frame.text, None);
    assert_eq!(bases.eh_frame.data, None);
    assert_eq!(bases.eh_frame_hdr.section, None);
    assert_eq!(bases.eh_frame_hdr.text, None);
    assert_eq!(bases.eh_frame_hdr.data, None);
    let text = SectionAddresses { text: Some(0x10), ..none }.bases();
    assert_eq!(text.eh_frame_hdr.text, Some(0x10));
    assert_eq!(text.eh_frame.text, Some(0x10));
    assert_eq!(text.eh_frame.section, None);
}

fn at(start: u64, end: u64, offset: i64) -> DecodedRow {
    DecodedRow {
        start_address: start,
        end_address: end,
        cfa: CfaEncoding::RegisterAndOffset { register: 7, offset },
        rbp: None,
        ra: Some(RuleEncoding::Offset(-8)),
    }
}

#[test]
fn entries_are_flattened_in_file_order_and_sorted() {
    let entries = vec![
        DecodedEntry::Cie,
        DecodedEntry::Fde(vec![at(0x2000, 0x2001, 8), at(0x2001, 0x2004, 16), at(0x2004, 0x2010, 8)]),
        DecodedEntry::Fde(vec![]),
        DecodedEntry::Cie,
        DecodedEntry::Fde(vec![at(0x1000, 0x1004, 8), at(0x1004, 0x1020, 24)]),
        DecodedEntry::Fde(vec![at(0x1020, 0x1021, 8)]),
    ];
    let table = UnwindTable::parse(&entries);
    let expected: Vec<UnwindTableRow> = [
        at(0x1000, 0x1004, 8),
        at(0x1004, 0x1020, 24),
        at(0x1020, 0x1021, 8),
        at(0x2000, 0x2001, 8),
        at(0x2001, 0x2004, 16),
        at(0x2004, 0x2010, 8),
    ]
    .iter()
    .map(UnwindTableRow::parse)
    .collect();
    assert_eq!(table.rows, expected);
    for pair in table.rows.windows(2) {
        assert!(pair[0].end_address <= pair[1].start_address);
    }
}

#[test]
fn equal_starts_across_entries_keep_file_order() {
    let entries = vec![
        DecodedEntry::Fde(vec![at(0x10, 0x20, 1)]),
        DecodedEntry::Fde(vec![at(0x0, 0x10, 2), at(0x10, 0x18, 3)]),
        DecodedEntry::Cie,
        DecodedEntry::Fde(vec![at(0x10, 0x11, 4)]),
    ];
    let table = UnwindTable::parse(&entries);
    let offsets: Vec<Register> = table.rows.iter().map(|row| row.cfa).collect();
    let expected: Vec<Register> =
        [2, 1, 3, 4].iter().map(|n| Register::Register(MachineRegister::Rsp, *n)).collect();
    assert_eq!(offsets, expected);
}
