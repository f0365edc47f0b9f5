//! The generated source text: a tree of address tests over the table, one
//! leaf per row, and the status byte that each leaf reports.

use vstd::prelude::*;
use vstd::string::*;
use crate::ast::{
    MachineRegister, Register, UnwindTable, UnwindTableRow, all_well_formed, consecutive, disjoint,
    lemma_sorted_rows_are_consecutive, stably_sorted,
};
use crate::text::{decimal, hexadecimal, signed_decimal, push_decimal, push_hexadecimal, push_signed_decimal};

verus! {

/// Declarations that open the generated source, up to and including the
/// header of the unwinding function.
pub const PRE: &'static str = "
#include <assert.h>
#include <stdint.h>

typedef enum {
    UNWF_RIP=0,
    UNWF_RSP=1,
    UNWF_RBP=2,
    UNWF_RBX=3,
    UNWF_ERROR=7,
} unwind_flags_t;

typedef struct {
    uint8_t flags;
    uintptr_t rip, rsp, rbp, rbx;
} unwind_context_t;

typedef uintptr_t (*deref_func_t)(uintptr_t);

typedef unwind_context_t (*_fde_func_t)(unwind_context_t, uintptr_t);
typedef unwind_context_t (*_fde_func_with_deref_t)(
    unwind_context_t,
    uintptr_t,
    deref_func_t);

void _eh_elf(unwind_context_t ctx, unwind_context_t *out_ctx, uintptr_t pc, deref_func_t deref) {
";

/// The end of the unwinding function: reached when no row was selected, it
/// reports the error bit alone.
pub const POST: &'static str = "
    out_ctx->flags = 128u; // 1 << UNWF_ERROR
    return;
}
";

/// Which fields of the output record a leaf has filled in, and whether it
/// met a rule that it could not follow.
#[derive(Clone, Copy, Debug, Eq, PartialEq, Structural)]
pub struct UnwindFlags {
    /// The return address is valid.
    pub rip: bool,
    /// The stack pointer is valid.
    pub rsp: bool,
    /// The frame pointer is valid.
    pub rbp: bool,
    /// The reserved fourth field is valid.
    pub rbx: bool,
    /// A rule of the row is outside the modelled subset.
    pub error: bool,
}

impl UnwindFlags {
    /// The status byte: bit 0 for `rip`, 1 for `rsp`, 2 for `rbp`, 3 for
    /// `rbx` and 7 for `error`.
    pub open spec fn bits(self) -> u8 {
        ((if self.rip { 1int } else { 0 })
            + (if self.rsp { 2int } else { 0 })
            + (if self.rbp { 4int } else { 0 })
            + (if self.rbx { 8int } else { 0 })
            + (if self.error { 128int } else { 0 })) as u8
    }
}

impl Default for UnwindFlags {
    fn default() -> (r: Self)
        ensures
            r == (UnwindFlags { rip: false, rsp: false, rbp: false, rbx: false, error: false }),
    {
        UnwindFlags { rip: false, rsp: false, rbp: false, rbx: false, error: false }
    }
}

impl From<UnwindFlags> for u8 {
    fn from(flags: UnwindFlags) -> (r: u8) {
        let mut r: u8 = 0;
        if flags.rip {
            r = r + 1;
        }
        if flags.rsp {
            r = r + 2;
        }
        if flags.rbp {
            r = r + 4;
        }
        if flags.rbx {
            r = r + 8;
        }
        if flags.error {
            r = r + 128;
        }
        r
    }
}

impl vstd::std_specs::convert::FromSpecImpl<UnwindFlags> for u8 {
    open spec fn obeys_from_spec() -> bool {
        true
    }

    open spec fn from_spec(flags: UnwindFlags) -> u8 {
        flags.bits()
    }
}

impl MachineRegister {
    /// The name of the register's field in the input record.
    pub open spec fn name(self) -> Seq<char> {
        match self {
            MachineRegister::Rsp => "rsp"@,
            MachineRegister::Rbp => "rbp"@,
            MachineRegister::Ra => "ra"@,
        }
    }

    /// The name of the register's field in the input record.
    pub fn field(&self) -> (s: &'static str)
        ensures
            s@ == self.name(),
    {
        match self {
            MachineRegister::Rsp => "rsp",
            MachineRegister::Rbp => "rbp",
            MachineRegister::Ra => "ra",
        }
    }
}

impl Register {
    /// The expression that computes the value of a defined rule; it reads
    /// the input record `ctx`, and memory through `deref` at an offset from
    /// the stack pointer that the leaf has just derived.
    pub open spec fn expression(self) -> Seq<char> {
        match self {
            Register::Register(reg, offset) => "ctx."@ + reg.name() + " + "@ + signed_decimal(offset as int),
            Register::CfaOffset(offset) => "deref(out_ctx->rsp + "@ + signed_decimal(offset as int) + ")"@,
            Register::PltExpr => "(((ctx.rip & 15) >= 11) ? 8 : 0) + ctx.rsp"@,
            Register::Undefined => Seq::empty(),
            Register::Unimplemented => Seq::empty(),
        }
    }

    /// Appends the expression of a defined rule to `w`.
    pub fn gen(&self, w: &mut String)
        requires
            self.defined(),
        ensures
            final(w)@ == old(w)@ + self.expression(),
    {
        match self {
            Register::CfaOffset(offset) => {
                w.append("deref(out_ctx->rsp + ");
                push_signed_decimal(w, *offset);
                w.append(")");
            },
            Register::Register(reg, offset) => {
                w.append("ctx.");
                w.append(reg.field());
                w.append(" + ");
                push_signed_decimal(w, *offset);
            },
            Register::PltExpr => {
                w.append("(((ctx.rip & 15) >= 11) ? 8 : 0) + ctx.rsp");
            },
            Register::Undefined => {},
            Register::Unimplemented => {},
        }
        assert(final(w)@ =~= old(w)@ + self.expression());
    }
}

impl UnwindTableRow {
    /// The status that the leaf of this row reports.
    pub open spec fn flags(self) -> UnwindFlags {
        UnwindFlags {
            rip: self.ra.defined(),
            rsp: self.cfa.implemented(),
            rbp: self.rbp.defined(),
            rbx: false,
            error: !self.ra.implemented() || !self.cfa.implemented(),
        }
    }

    /// The leaf can be written: the rule for the canonical frame address,
    /// which is written whenever it is within the modelled subset, is not
    /// the undefined one, which has no expression.
    pub open spec fn renderable(self) -> bool {
        self.cfa != Register::Undefined
    }

    /// The statement that assigns the expression of `rule` to the field
    /// `field` of the output record.
    pub open spec fn assignment(field: Seq<char>, rule: Register) -> Seq<char> {
        "out_ctx->"@ + field + " = "@ + rule.expression() + ";\n"@
    }

    /// The leaf of this row: the stack pointer if the canonical frame
    /// address is within the modelled subset, then the frame pointer and the
    /// return address if they are defined, then the status byte.
    pub open spec fn leaf(self) -> Seq<char> {
        (if self.cfa.implemented() { Self::assignment("rsp"@, self.cfa) } else { Seq::empty() })
            + (if self.rbp.defined() { Self::assignment("rbp"@, self.rbp) } else { Seq::empty() })
            + (if self.ra.defined() { Self::assignment("rip"@, self.ra) } else { Seq::empty() })
            + "out_ctx->flags = "@ + decimal(self.flags().bits() as nat) + "u;\n"@
            + "return;\n"@
    }

    /// Appends the statement that assigns the expression of `rule` to the
    /// field `field` of the output record.
    fn gen_assignment(w: &mut String, field: &str, rule: &Register)
        requires
            rule.defined(),
        ensures
            final(w)@ == old(w)@ + Self::assignment(field@, *rule),
    {
        w.append("out_ctx->");
        w.append(field);
        w.append(" = ");
        rule.gen(w);
        w.append(";\n");
        assert(final(w)@ =~= old(w)@ + Self::assignment(field@, *rule));
    }

    /// Appends the line that reports `flags`, and the return.
    fn gen_status(w: &mut String, flags: UnwindFlags)
        ensures
            final(w)@ == old(w)@ + ("out_ctx->flags = "@ + decimal(flags.bits() as nat) + "u;\n"@
                + "return;\n"@),
    {
        w.append("out_ctx->flags = ");
        push_decimal(w, u8::from(flags) as u64);
        w.append("u;\n");
        w.append("return;\n");
        assert(final(w)@ =~= old(w)@ + ("out_ctx->flags = "@ + decimal(flags.bits() as nat)
            + "u;\n"@ + "return;\n"@));
    }

    /// Appends the leaf of this row to `w`.
    pub fn gen(&self, w: &mut String)
        requires
            self.renderable(),
        ensures
            final(w)@ == old(w)@ + self.leaf(),
    {
        let mut flags = UnwindFlags::default();
        if !self.ra.is_implemented() {
            flags.error = true;
        }
        let ghost at_entry = w@;
        if self.cfa.is_implemented() {
            flags.rsp = true;
            Self::gen_assignment(w, "rsp", &self.cfa);
        } else {
            flags.error = true;
        }
        if self.rbp.is_defined() {
            flags.rbp = true;
            Self::gen_assignment(w, "rbp", &self.rbp);
        }
        if self.ra.is_defined() {
            flags.rip = true;
            Self::gen_assignment(w, "rip", &self.ra);
        }
        assert(flags == self.flags());
        Self::gen_status(w, flags);
        assert(w@ =~= at_entry + self.leaf());
    }
}

/// The decision structure of the generated function: which row answers for
/// an address.
pub enum Dispatch {
    /// One row is left: its leaf answers.
    Leaf(UnwindTableRow),
    /// A test of the address against `low` (inclusive) and `high`
    /// (exclusive): `inside` answers where it holds, `outside` elsewhere.
    Test { low: usize, high: usize, inside: Box<Dispatch>, outside: Box<Dispatch> },
}

impl Dispatch {
    /// The tree over a sequence of rows, which holds at least one: the
    /// positions are halved until one row is left. The test of a node spans
    /// the first half, from the start of its first row to the end of its
    /// last.
    pub open spec fn of(rows: Seq<UnwindTableRow>) -> Dispatch
        recommends
            rows.len() > 0,
        decreases rows.len(),
    {
        if rows.len() <= 1 {
            Dispatch::Leaf(rows[0])
        } else {
            let middle = rows.len() as int / 2;
            let first = rows.subrange(0, middle);
            let second = rows.subrange(middle, rows.len() as int);
            Dispatch::Test {
                low: first.first().start_address,
                high: first.last().end_address,
                inside: Box::new(Dispatch::of(first)),
                outside: Box::new(Dispatch::of(second)),
            }
        }
    }

    /// The source text of the tree.
    pub open spec fn source(self) -> Seq<char>
        decreases self,
    {
        match self {
            Dispatch::Leaf(row) => row.leaf(),
            Dispatch::Test { low, high, inside, outside } => {
                Self::test(low, high) + inside.source() + "} else {\n"@ + outside.source() + "}\n"@
            },
        }
    }

    /// The line that opens a test of the address `pc`.
    pub open spec fn test(low: usize, high: usize) -> Seq<char> {
        "if(0x"@ + hexadecimal(low as nat) + " <= pc && pc < 0x"@ + hexadecimal(high as nat)
            + ") {\n"@
    }

    /// The row whose leaf the generated function runs for the address `pc`.
    pub open spec fn select(self, pc: int) -> UnwindTableRow
        decreases self,
    {
        match self {
            Dispatch::Leaf(row) => row,
            Dispatch::Test { low, high, inside, outside } => {
                if low <= pc < high {
                    inside.select(pc)
                } else {
                    outside.select(pc)
                }
            },
        }
    }

    /// The number of tests that the tree holds.
    pub open spec fn tests(self) -> nat
        decreases self,
    {
        match self {
            Dispatch::Leaf(_) => 0,
            Dispatch::Test { low, high, inside, outside } => 1 + inside.tests() + outside.tests(),
        }
    }

    /// The greatest number of tests that one lookup runs.
    pub open spec fn depth(self) -> nat
        decreases self,
    {
        match self {
            Dispatch::Leaf(_) => 0,
            Dispatch::Test { low, high, inside, outside } => {
                1 + if inside.depth() >= outside.depth() { inside.depth() } else { outside.depth() }
            },
        }
    }
}

/// In rows that each cover an address and each end where the next one
/// starts, or before it, a row ends where any later one starts, or before it.
proof fn lemma_consecutive_rows_are_apart(rows: Seq<UnwindTableRow>, i: int, j: int)
    requires
        all_well_formed(rows),
        consecutive(rows),
        0 <= i < j < rows.len(),
    ensures
        rows[i].end_address <= rows[j].start_address,
    decreases j - i,
{
    if i + 1 < j {
        lemma_consecutive_rows_are_apart(rows, i, j - 1);
        assert(rows[j - 1].well_formed());
        assert(rows[j - 1].end_address <= rows[j].start_address);
    }
}

/// A stretch of such rows is again such rows.
proof fn lemma_stretch_is_consecutive(rows: Seq<UnwindTableRow>, from: int, to: int)
    requires
        all_well_formed(rows),
        consecutive(rows),
        0 <= from <= to <= rows.len(),
    ensures
        all_well_formed(rows.subrange(from, to)),
        consecutive(rows.subrange(from, to)),
{
    let part = rows.subrange(from, to);
    assert forall|k: int| 0 <= k < part.len() implies (#[trigger] part[k]).well_formed() by {
        assert(part[k] == rows[from + k]);
    }
    assert forall|k: int, l: int| 0 <= k && l == k + 1 && l < part.len() implies (
    #[trigger] part[k]).end_address <= (#[trigger] part[l]).start_address by {
        assert(part[k] == rows[from + k]);
        assert(part[l] == rows[from + l]);
    }
}

/// A lookup finds the row that covers the address: in a table whose rows
/// each cover an address and each end where the next one starts, or before
/// it, the tree selects for every address that a row covers that very row.
pub proof fn lemma_lookup_selects_covering_row(rows: Seq<UnwindTableRow>, i: int, pc: int)
    requires
        all_well_formed(rows),
        consecutive(rows),
        0 <= i < rows.len(),
        rows[i].covers(pc),
    ensures
        Dispatch::of(rows).select(pc) == rows[i],
    decreases rows.len(),
{
    if rows.len() > 1 {
        let middle = rows.len() as int / 2;
        let first = rows.subrange(0, middle);
        let second = rows.subrange(middle, rows.len() as int);
        lemma_stretch_is_consecutive(rows, 0, middle);
        lemma_stretch_is_consecutive(rows, middle, rows.len() as int);
        assert(first.first() == rows[0]);
        assert(first.last() == rows[middle - 1]);
        assert(rows[0].well_formed());
        assert(rows[middle - 1].well_formed());
        assert(rows[i].well_formed());
        if i < middle {
            if 0 < i {
                lemma_consecutive_rows_are_apart(rows, 0, i);
            }
            if i < middle - 1 {
                lemma_consecutive_rows_are_apart(rows, i, middle - 1);
            }
            assert(first[i] == rows[i]);
            lemma_lookup_selects_covering_row(first, i, pc);
        } else {
            lemma_consecutive_rows_are_apart(rows, middle - 1, i);
            assert(second[i - middle] == rows[i]);
            lemma_lookup_selects_covering_row(second, i - middle, pc);
        }
    }
}

/// A lookup in a built table finds the row that covers the address: if the
/// rows given each cover an address and no two of them overlap, the tree
/// over the sorted table selects for every address that a row covers that
/// very row.
pub proof fn lemma_lookup_in_sorted_table(
    before: Seq<UnwindTableRow>,
    after: Seq<UnwindTableRow>,
    origin: Seq<int>,
    i: int,
    pc: int,
)
    requires
        stably_sorted(before, after, origin),
        all_well_formed(before),
        disjoint(before),
        0 <= i < after.len(),
        after[i].covers(pc),
    ensures
        Dispatch::of(after).select(pc) == after[i],
{
    lemma_sorted_rows_are_consecutive(before, after, origin);
    lemma_lookup_selects_covering_row(after, i, pc);
}

/// How often `n` must be halved, rounding up, to reach one: the least `d`
/// with `n <= 2^d`.
pub open spec fn halvings(n: nat) -> nat
    decreases n,
{
    if n <= 1 {
        0
    } else {
        1 + halvings(((n + 1) / 2) as nat)
    }
}

/// More rows never need fewer halvings.
proof fn lemma_halvings_grow(a: nat, b: nat)
    requires
        a <= b,
    ensures
        halvings(a) <= halvings(b),
    decreases b,
{
    if a > 1 {
        lemma_halvings_grow(((a + 1) / 2) as nat, ((b + 1) / 2) as nat);
    }
}

/// The tree is balanced: over `n` rows, no lookup runs more tests than `n`
/// can be halved, and some lookup runs that many.
pub proof fn lemma_depth_is_logarithmic(rows: Seq<UnwindTableRow>)
    requires
        rows.len() > 0,
    ensures
        Dispatch::of(rows).depth() == halvings(rows.len()),
    decreases rows.len(),
{
    if rows.len() > 1 {
        let middle = rows.len() as int / 2;
        let first = rows.subrange(0, middle);
        let second = rows.subrange(middle, rows.len() as int);
        lemma_depth_is_logarithmic(first);
        lemma_depth_is_logarithmic(second);
        lemma_halvings_grow(first.len(), second.len());
        assert(second.len() == (rows.len() + 1) / 2);
    }
}

/// The tree over `n` rows holds `n - 1` tests.
pub proof fn lemma_one_test_less_than_rows(rows: Seq<UnwindTableRow>)
    requires
        rows.len() > 0,
    ensures
        Dispatch::of(rows).tests() == rows.len() - 1,
    decreases rows.len(),
{
    if rows.len() > 1 {
        let middle = rows.len() as int / 2;
        lemma_one_test_less_than_rows(rows.subrange(0, middle));
        lemma_one_test_less_than_rows(rows.subrange(middle, rows.len() as int));
    }
}

/// The status byte shows each flag at its bit.
pub proof fn lemma_status_bits(flags: UnwindFlags)
    ensures
        flags.bits() & 0x01 != 0 <==> flags.rip,
        flags.bits() & 0x02 != 0 <==> flags.rsp,
        flags.bits() & 0x04 != 0 <==> flags.rbp,
        flags.bits() & 0x08 != 0 <==> flags.rbx,
        flags.bits() & 0x80 != 0 <==> flags.error,
        flags.bits() & 0x70 == 0,
{
    let b = flags.bits();
    assert(b & 0x01 != 0 <==> b % 2 == 1) by (bit_vector);
    assert(b & 0x02 != 0 <==> (b / 2) % 2 == 1) by (bit_vector);
    assert(b & 0x04 != 0 <==> (b / 4) % 2 == 1) by (bit_vector);
    assert(b & 0x08 != 0 <==> (b / 8) % 2 == 1) by (bit_vector);
    assert(b & 0x80 != 0 <==> b >= 128) by (bit_vector);
    assert(b & 0x70 == 0 <==> (b % 128) < 16) by (bit_vector);
}

/// The leaf of a row reports the error bit exactly when the rule for the
/// canonical frame address, or that for the return address, is outside the
/// modelled subset.
pub proof fn lemma_error_bit(row: UnwindTableRow)
    ensures
        row.flags().bits() & 0x80 != 0 <==> (!row.cfa.implemented() || row.ra
            == Register::Unimplemented),
{
    lemma_status_bits(row.flags());
}

/// Every row can be written as a leaf.
pub open spec fn all_renderable(rows: Seq<UnwindTableRow>) -> bool {
    forall|i: int| 0 <= i < rows.len() ==> (#[trigger] rows[i]).renderable()
}

/// Sorting keeps rows writable: if every row can be written as a leaf
/// before, every row can after.
pub proof fn lemma_sorting_keeps_renderable(
    before: Seq<UnwindTableRow>,
    after: Seq<UnwindTableRow>,
    origin: Seq<int>,
)
    requires
        stably_sorted(before, after, origin),
        all_renderable(before),
    ensures
        all_renderable(after),
{
    assert forall|i: int| 0 <= i < after.len() implies (#[trigger] after[i]).renderable() by {
        assert(after[i] == before[origin[i]]);
    }
}

/// Appends the tree over `rows` to `w`.
pub fn gen_rows(w: &mut String, rows: &[UnwindTableRow])
    requires
        rows@.len() > 0,
        all_renderable(rows@),
    ensures
        final(w)@ == old(w)@ + Dispatch::of(rows@).source(),
    decreases rows@.len(),
{
    if rows.len() > 1 {
        let (a, b) = rows.split_at(rows.len() / 2);
        let low = a[0].start_address;
        let high = a[a.len() - 1].end_address;
        w.append("if(0x");
        push_hexadecimal(w, low as u64);
        w.append(" <= pc && pc < 0x");
        push_hexadecimal(w, high as u64);
        w.append(") {\n");
        assert(w@ =~= old(w)@ + Dispatch::test(low, high));
        gen_rows(w, a);
        w.append("} else {\n");
        gen_rows(w, b);
        w.append("}\n");
        assert(final(w)@ =~= old(w)@ + Dispatch::of(rows@).source());
    } else {
        rows[0].gen(w);
    }
}

impl UnwindTable {
    /// The whole generated source: the opening declarations, the tree over
    /// the rows if there are any, and the fallback that reports the error
    /// bit alone.
    pub open spec fn source(&self) -> Seq<char> {
        PRE@ + (if self.rows@.len() > 0 { Dispatch::of(self.rows@).source() } else { Seq::empty() })
            + POST@
    }

    /// Appends the whole generated source to `w`.
    pub fn gen(&self, w: &mut String)
        requires
            all_renderable(self.rows@),
        ensures
            final(w)@ == old(w)@ + self.source(),
    {
        w.append(PRE);
        if self.rows.len() > 0 {
            gen_rows(w, self.rows.as_slice());
        }
        w.append(POST);
        assert(final(w)@ =~= old(w)@ + self.source());
    }
}

} // verus!
