//! From the decoder of the call-frame information to the model: the base
//! addresses that the decoder is given, and the rows that it reports.

use vstd::prelude::*;
use crate::ast::{MachineRegister, Register, UnwindTable, UnwindTableRow, stably_sorted};
use crate::gen::{all_renderable, lemma_sorting_keeps_renderable};

verus! {

#[verifier::external_type_specification]
#[verifier::external_body]
pub struct ExBaseAddresses(gimli::BaseAddresses);

/// The six addresses that a `gimli::BaseAddresses` holds, in this order: for
/// pointers in `.eh_frame_hdr` the address of the section, the base of
/// text-relative and the base of data-relative pointers, then the same three
/// for pointers in `.eh_frame`.
pub uninterp spec fn base_slots(bases: gimli::BaseAddresses) -> Seq<Option<u64>>;

/// `BaseAddresses::default` of gimli: the derived default, in which every
/// address is unknown.
pub assume_specification[ <gimli::BaseAddresses as Default>::default ]() -> (bases:
    gimli::BaseAddresses)
    ensures
        base_slots(bases) == Seq::new(6, |i: int| None::<u64>),
;

/// `BaseAddresses::set_eh_frame_hdr` of gimli: the address becomes that of
/// the `.eh_frame_hdr` section and the base of its data-relative pointers.
pub assume_specification[ gimli::BaseAddresses::set_eh_frame_hdr ](
    bases: gimli::BaseAddresses,
    addr: u64,
) -> (r: gimli::BaseAddresses)
    ensures
        base_slots(r) == base_slots(bases).update(0, Some(addr)).update(2, Some(addr)),
;

/// `BaseAddresses::set_eh_frame` of gimli: the address becomes that of the
/// `.eh_frame` section.
pub assume_specification[ gimli::BaseAddresses::set_eh_frame ](
    bases: gimli::BaseAddresses,
    addr: u64,
) -> (r: gimli::BaseAddresses)
    ensures
        base_slots(r) == base_slots(bases).update(3, Some(addr)),
;

/// `BaseAddresses::set_text` of gimli: the address becomes the base of
/// text-relative pointers in both sections.
pub assume_specification[ gimli::BaseAddresses::set_text ](
    bases: gimli::BaseAddresses,
    addr: u64,
) -> (r: gimli::BaseAddresses)
    ensures
        base_slots(r) == base_slots(bases).update(1, Some(addr)).update(4, Some(addr)),
;

/// `BaseAddresses::set_got` of gimli: the address becomes the base of
/// data-relative pointers in `.eh_frame`.
pub assume_specification[ gimli::BaseAddresses::set_got ](
    bases: gimli::BaseAddresses,
    addr: u64,
) -> (r: gimli::BaseAddresses)
    ensures
        base_slots(r) == base_slots(bases).update(5, Some(addr)),
;

/// The addresses at which the sections that pointers can be relative to are
/// loaded; `None` for a section that the binary lacks.
#[derive(Clone, Copy, Debug, Eq, PartialEq, Structural)]
pub struct SectionAddresses {
    /// `.eh_frame_hdr`.
    pub eh_frame_hdr: Option<u64>,
    /// `.eh_frame`.
    pub eh_frame: Option<u64>,
    /// `.text`.
    pub text: Option<u64>,
    /// `.got`.
    pub got: Option<u64>,
}

impl SectionAddresses {
    /// What the decoder is to know: each section that is present gives the
    /// addresses that depend on it, and the others stay unknown.
    pub open spec fn slots(self) -> Seq<Option<u64>> {
        seq![self.eh_frame_hdr, self.text, self.eh_frame_hdr, self.eh_frame, self.text, self.got]
    }

    /// The base addresses for the decoder.
    pub fn bases(&self) -> (bases: gimli::BaseAddresses)
        ensures
            base_slots(bases) == self.slots(),
    {
        let mut bases = gimli::BaseAddresses::default();
        if let Some(addr) = self.eh_frame_hdr {
            bases = bases.set_eh_frame_hdr(addr);
        }
        if let Some(addr) = self.eh_frame {
            bases = bases.set_eh_frame(addr);
        }
        if let Some(addr) = self.text {
            bases = bases.set_text(addr);
        }
        if let Some(addr) = self.got {
            bases = bases.set_got(addr);
        }
        assert(base_slots(bases) =~= self.slots());
        bases
    }
}

/// The rule for the canonical frame address, as the decoder reports it.
#[derive(Clone, Copy, Debug, Eq, Hash, PartialEq, Structural)]
pub enum CfaEncoding {
    /// A register, given by its DWARF number, plus an offset.
    RegisterAndOffset { register: u16, offset: i64 },
    /// A DWARF expression. The only one met in practice is that of
    /// procedure-linkage-table stubs, and every expression is taken for it
    /// unexamined.
    Expression,
}

/// The rule for one register, as the decoder reports it.
#[derive(Clone, Copy, Debug, Eq, Hash, PartialEq, Structural)]
pub enum RuleEncoding {
    /// The register has no recoverable value.
    Undefined,
    /// The register has the value that it had in the caller.
    SameValue,
    /// The value was saved at an offset from the canonical frame address.
    Offset(i64),
    /// The value is the canonical frame address plus an offset.
    ValOffset(i64),
    /// The value is in another register, given by its DWARF number.
    Register(u16),
    /// The value was saved at the address that a DWARF expression yields.
    Expression,
    /// The value is what a DWARF expression yields.
    ValExpression,
    /// The rule is defined by the architecture.
    Architectural,
    /// The value is a constant.
    Constant(u64),
}

/// One row as the decoder reports it; a register without a rule in the row
/// has `None`.
#[derive(Clone, Copy, Debug, Eq, Hash, PartialEq, Structural)]
pub struct DecodedRow {
    pub start_address: u64,
    pub end_address: u64,
    pub cfa: CfaEncoding,
    pub rbp: Option<RuleEncoding>,
    pub ra: Option<RuleEncoding>,
}

impl CfaEncoding {
    /// The rule in the model: a register and offset stays one if the
    /// register is modelled and is outside the modelled subset if not; an
    /// expression is taken for that of the procedure-linkage-table stubs.
    pub open spec fn rule(self) -> Register {
        match self {
            CfaEncoding::RegisterAndOffset { register, offset } => {
                match MachineRegister::of_dwarf(register) {
                    Some(base) => Register::Register(base, offset as isize),
                    None => Register::Unimplemented,
                }
            },
            CfaEncoding::Expression => Register::PltExpr,
        }
    }

    /// The rule in the model.
    pub fn to_register(&self) -> (r: Register)
        ensures
            r == self.rule(),
    {
        match self {
            CfaEncoding::RegisterAndOffset { register, offset } => {
                match MachineRegister::from_dwarf(*register) {
                    Some(base) => Register::Register(base, #[verifier::truncate] (*offset as isize)),
                    None => Register::Unimplemented,
                }
            },
            CfaEncoding::Expression => Register::PltExpr,
        }
    }
}

/// The rule of a register in the model: an offset from the canonical frame
/// address stays one, a register that is undefined or has no rule is
/// undefined, and every other rule is outside the modelled subset.
pub open spec fn rule_of(encoding: Option<RuleEncoding>) -> Register {
    match encoding {
        None => Register::Undefined,
        Some(RuleEncoding::Undefined) => Register::Undefined,
        Some(RuleEncoding::Offset(offset)) => Register::CfaOffset(offset as isize),
        Some(_) => Register::Unimplemented,
    }
}

/// The rule of a register in the model.
pub fn register_rule(encoding: &Option<RuleEncoding>) -> (r: Register)
    ensures
        r == rule_of(*encoding),
{
    match encoding {
        None => Register::Undefined,
        Some(RuleEncoding::Undefined) => Register::Undefined,
        Some(RuleEncoding::Offset(offset)) => Register::CfaOffset(#[verifier::truncate] (*offset as isize)),
        Some(_) => Register::Unimplemented,
    }
}

impl DecodedRow {
    /// The row of the table for this decoded row: the same addresses, and
    /// each rule in the model.
    pub open spec fn row(self) -> UnwindTableRow {
        UnwindTableRow {
            start_address: self.start_address as usize,
            end_address: self.end_address as usize,
            cfa: self.cfa.rule(),
            rbp: rule_of(self.rbp),
            ra: rule_of(self.ra),
        }
    }
}

/// The rows of the table for decoded rows, one for one.
pub open spec fn rows_of(decoded: Seq<DecodedRow>) -> Seq<UnwindTableRow> {
    decoded.map_values(|row: DecodedRow| row.row())
}

impl UnwindTableRow {
    /// The row of the table for a decoded row. Its rule for the canonical
    /// frame address is never undefined, so it can be written as a leaf.
    pub fn parse(row: &DecodedRow) -> (r: UnwindTableRow)
        ensures
            r == row.row(),
            r.renderable(),
    {
        UnwindTableRow {
            start_address: #[verifier::truncate] (row.start_address as usize),
            end_address: #[verifier::truncate] (row.end_address as usize),
            cfa: row.cfa.to_register(),
            rbp: register_rule(&row.rbp),
            ra: register_rule(&row.ra),
        }
    }
}

/// One entry of the call-frame information as the decoder reports it.
#[derive(Clone, Debug, Eq, PartialEq)]
pub enum DecodedEntry {
    /// A common information entry: it holds what frame description entries
    /// share, and no rows of its own.
    Cie,
    /// A frame description entry, with its rows in ascending order of their
    /// addresses.
    Fde(Vec<DecodedRow>),
}

impl DecodedEntry {
    /// The rows that the entry gives to the table.
    pub open spec fn rows(self) -> Seq<DecodedRow> {
        match self {
            DecodedEntry::Cie => Seq::empty(),
            DecodedEntry::Fde(rows) => rows@,
        }
    }
}

/// The rows of all entries, one entry after the other.
pub open spec fn decoded_rows(entries: Seq<DecodedEntry>) -> Seq<DecodedRow>
    decreases entries.len(),
{
    if entries.len() == 0 {
        Seq::empty()
    } else {
        decoded_rows(entries.drop_last()) + entries.last().rows()
    }
}

impl UnwindTable {
    /// The table of a binary, from the entries that the decoder reports in
    /// the order of the file: the rows of all frame description entries, one
    /// entry after the other, each row in the model, sorted by start
    /// address, rows with equal start addresses in the order of the file.
    /// Every row of the table can be written as a leaf.
    pub fn parse(entries: &[DecodedEntry]) -> (table: UnwindTable)
        ensures
            exists|origin: Seq<int>|
                stably_sorted(rows_of(decoded_rows(entries@)), table.rows@, origin),
            table.well_formed(),
            all_renderable(table.rows@),
    {
        let mut rows: Vec<UnwindTableRow> = Vec::new();
        let mut i: usize = 0;
        while i < entries.len()
            invariant
                i <= entries@.len(),
                rows@ == rows_of(decoded_rows(entries@.take(i as int))),
                all_renderable(rows@),
            decreases entries@.len() - i,
        {
            let ghost done = decoded_rows(entries@.take(i as int));
            proof {
                let next = entries@.take(i + 1);
                assert(next.drop_last() =~= entries@.take(i as int));
                assert(next.last() == entries@[i as int]);
                assert(decoded_rows(next) == done + entries@[i as int].rows());
            }
            match &entries[i] {
                DecodedEntry::Cie => {
                    assert(done + entries@[i as int].rows() =~= done);
                },
                DecodedEntry::Fde(decoded) => {
                    let mut j: usize = 0;
                    assert(done + decoded@.take(0) =~= done);
                    while j < decoded.len()
                        invariant
                            j <= decoded@.len(),
                            rows@ == rows_of(done + decoded@.take(j as int)),
                            all_renderable(rows@),
                        decreases decoded@.len() - j,
                    {
                        rows.push(UnwindTableRow::parse(&decoded[j]));
                        assert(rows@ =~= rows_of(done + decoded@.take(j + 1)));
                        j = j + 1;
                    }
                    assert(decoded@.take(j as int) =~= decoded@);
                },
            }
            i = i + 1;
        }
        assert(entries@.take(i as int) =~= entries@);
        let table = UnwindTable::from_rows(rows);
        proof {
            let origin = choose|origin: Seq<int>| stably_sorted(rows@, table.rows@, origin);
            lemma_sorting_keeps_renderable(rows@, table.rows@, origin);
        }
        table
    }
}

} // verus!
