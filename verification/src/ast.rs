//! Register-recovery rules and the address-indexed table that holds them.

use vstd::prelude::*;

verus! {

/// A machine register that a recovery rule can be relative to.
#[derive(Clone, Copy, Debug, Eq, Hash, PartialEq, Structural)]
pub enum MachineRegister {
    /// The stack pointer.
    Rsp,
    /// The frame pointer.
    Rbp,
    /// The return-address slot, treated as a register.
    Ra,
}

/// How the value of one register is recovered at a program point.
#[derive(Clone, Copy, Debug, Eq, Hash, PartialEq, Structural)]
pub enum Register {
    /// No recovery is defined here.
    Undefined,
    /// The value that a machine register had on entry, plus an offset.
    Register(MachineRegister, isize),
    /// The word stored at some offset from the canonical frame address.
    CfaOffset(isize),
    /// The fixed expression of procedure-linkage-table stubs:
    /// the stack pointer, plus 8 once the stub has pushed its argument.
    PltExpr,
    /// A rule that exists but that this model cannot express.
    Unimplemented,
}

impl Register {
    /// True unless the rule is outside the modelled subset.
    pub open spec fn implemented(&self) -> bool {
        *self != Register::Unimplemented
    }

    /// True when the rule yields a concrete value.
    pub open spec fn defined(&self) -> bool {
        self.implemented() && *self != Register::Undefined
    }

    #[verifier::when_used_as_spec(implemented)]
    pub fn is_implemented(&self) -> (r: bool)
        ensures
            r == self.implemented(),
    {
        *self != Self::Unimplemented
    }

    #[verifier::when_used_as_spec(defined)]
    pub fn is_defined(&self) -> (r: bool)
        ensures
            r == self.defined(),
    {
        self.is_implemented() && *self != Self::Undefined
    }
}

impl MachineRegister {
    /// The machine register that a DWARF register number of x86-64 stands
    /// for: 6 is the frame pointer, 7 the stack pointer and 16 the return
    /// address. Other numbers are not modelled.
    pub open spec fn of_dwarf(number: u16) -> Option<MachineRegister> {
        if number == 7 {
            Some(MachineRegister::Rsp)
        } else if number == 6 {
            Some(MachineRegister::Rbp)
        } else if number == 16 {
            Some(MachineRegister::Ra)
        } else {
            None
        }
    }

    /// The machine register of a DWARF register number, if it is modelled.
    pub fn from_dwarf(number: u16) -> (r: Option<MachineRegister>)
        ensures
            r == Self::of_dwarf(number),
    {
        if number == 7 {
            Some(MachineRegister::Rsp)
        } else if number == 6 {
            Some(MachineRegister::Rbp)
        } else if number == 16 {
            Some(MachineRegister::Ra)
        } else {
            None
        }
    }
}

/// One row of the table: the rules that hold for the instruction addresses
/// from `start_address` up to, not including, `end_address`.
#[derive(Clone, Copy, Debug, Eq, Hash, PartialEq, Structural)]
pub struct UnwindTableRow {
    /// First instruction address covered.
    pub start_address: usize,
    /// First instruction address past the covered range.
    pub end_address: usize,
    /// Canonical frame address.
    pub cfa: Register,
    /// Frame pointer.
    pub rbp: Register,
    /// Return address.
    pub ra: Register,
}

impl UnwindTableRow {
    /// The row covers at least one address.
    pub open spec fn well_formed(self) -> bool {
        self.start_address < self.end_address
    }

    /// The row covers the address `pc`.
    pub open spec fn covers(self, pc: int) -> bool {
        self.start_address <= pc < self.end_address
    }
}

/// The rows of a whole binary. A table that was built is sorted by the
/// start addresses of its rows.
#[derive(Clone, Debug, Eq, Hash, PartialEq)]
pub struct UnwindTable {
    pub rows: Vec<UnwindTableRow>,
}

impl UnwindTable {
    /// The rows are in ascending order of their start addresses.
    pub open spec fn well_formed(&self) -> bool {
        sorted(self.rows@)
    }
}

/// The rows are in ascending order of their start addresses.
pub open spec fn sorted(rows: Seq<UnwindTableRow>) -> bool {
    forall|i: int, j: int|
        0 <= i < j < rows.len() ==> (#[trigger] rows[i]).start_address <= (#[trigger] rows[j]).start_address
}

/// Every row covers at least one address.
pub open spec fn all_well_formed(rows: Seq<UnwindTableRow>) -> bool {
    forall|i: int| 0 <= i < rows.len() ==> (#[trigger] rows[i]).well_formed()
}

/// No address is covered by the rows at two positions.
pub open spec fn disjoint(rows: Seq<UnwindTableRow>) -> bool {
    forall|i: int, j: int|
        0 <= i < rows.len() && 0 <= j < rows.len() && i != j ==> {
            ||| (#[trigger] rows[i]).end_address <= (#[trigger] rows[j]).start_address
            ||| rows[j].end_address <= rows[i].start_address
        }
}

/// Each row ends where the next one starts, or before it.
pub open spec fn consecutive(rows: Seq<UnwindTableRow>) -> bool {
    forall|i: int, j: int|
        0 <= i && j == i + 1 && j < rows.len() ==> (#[trigger] rows[i]).end_address <= (
        #[trigger] rows[j]).start_address
}

/// `after` holds the rows of `before` in ascending order of their start
/// addresses, rows with equal start addresses in the order that they had:
/// `origin` gives, for each position of `after`, the position in `before`
/// that its row came from.
pub open spec fn stably_sorted(
    before: Seq<UnwindTableRow>,
    after: Seq<UnwindTableRow>,
    origin: Seq<int>,
) -> bool {
    &&& after.len() == before.len()
    &&& origin.len() == before.len()
    &&& forall|i: int|
        0 <= i < after.len() ==> 0 <= #[trigger] origin[i] < before.len() && after[i]
            == before[origin[i]]
    &&& forall|i: int, j: int|
        0 <= i < j < after.len() ==> #[trigger] origin[i] != #[trigger] origin[j]
    &&& sorted(after)
    &&& forall|i: int, j: int|
        0 <= i < j < after.len() && after[i].start_address == after[j].start_address
            ==> #[trigger] origin[i] < #[trigger] origin[j]
}

/// Sorts the rows by their start addresses with `sort_by_key` of the
/// standard library, which is documented to sort in ascending order of the
/// key and to keep the order of elements with equal keys.
#[verifier::external_body]
fn sort_by_start(rows: &mut Vec<UnwindTableRow>)
    ensures
        exists|origin: Seq<int>| stably_sorted(old(rows)@, final(rows)@, origin),
{
    rows.sort_by_key(|row| row.start_address);
}

impl UnwindTable {
    /// The table of the rows of a binary, given in the order in which its
    /// frame description entries hold them: the same rows, sorted by their
    /// start addresses, rows with equal start addresses in the order given.
    /// Nothing is merged, dropped or filled in.
    pub fn from_rows(rows: Vec<UnwindTableRow>) -> (table: UnwindTable)
        ensures
            exists|origin: Seq<int>| stably_sorted(rows@, table.rows@, origin),
            table.well_formed(),
    {
        let mut rows = rows;
        sort_by_start(&mut rows);
        UnwindTable { rows }
    }
}

/// Sorting keeps rows apart: if no address is covered at two positions
/// before, none is after.
pub proof fn lemma_sorting_keeps_disjoint(
    before: Seq<UnwindTableRow>,
    after: Seq<UnwindTableRow>,
    origin: Seq<int>,
)
    requires
        stably_sorted(before, after, origin),
        disjoint(before),
    ensures
        disjoint(after),
{
    assert forall|i: int, j: int|
        0 <= i < after.len() && 0 <= j < after.len() && i != j implies {
        ||| (#[trigger] after[i]).end_address <= (#[trigger] after[j]).start_address
        ||| after[j].end_address <= after[i].start_address
    } by {
        assert(origin[i] != origin[j]);
        assert(after[i] == before[origin[i]]);
        assert(after[j] == before[origin[j]]);
    }
}

/// In a sorted table built from rows that each cover an address and of
/// which no two overlap, each row ends where the next one starts, or before
/// it.
pub proof fn lemma_sorted_rows_are_consecutive(
    before: Seq<UnwindTableRow>,
    after: Seq<UnwindTableRow>,
    origin: Seq<int>,
)
    requires
        stably_sorted(before, after, origin),
        all_well_formed(before),
        disjoint(before),
    ensures
        all_well_formed(after),
        consecutive(after),
{
    lemma_sorting_keeps_disjoint(before, after, origin);
    assert forall|i: int| 0 <= i < after.len() implies (#[trigger] after[i]).well_formed() by {
        assert(after[i] == before[origin[i]]);
    }
    assert forall|i: int, j: int| 0 <= i && j == i + 1 && j < after.len() implies (
    #[trigger] after[i]).end_address <= (#[trigger] after[j]).start_address by {
        assert(after[j].well_formed());
        assert(after[i].start_address <= after[j].start_address);
    }
}

} // verus!
