//! What the rules and the generated source mean: the value of a rule on
//! the state of one unwinding step, the expression and the leaf written for
//! it, and what they compute on the same state.

use vstd::prelude::*;
use crate::ast::{MachineRegister, Register, UnwindTableRow, all_well_formed, consecutive};
use crate::gen::{Dispatch, lemma_lookup_selects_covering_row};
use crate::text::{decimal, signed_decimal};

verus! {

/// The record that the generated function takes as `ctx`: the registers of
/// the frame that is unwound.
pub struct Context {
    /// The instruction pointer.
    pub rip: u64,
    /// The stack pointer.
    pub rsp: u64,
    /// The frame pointer.
    pub rbp: u64,
    /// The return-address slot, for a rule that is relative to it.
    pub ra: u64,
}

impl Context {
    /// The value that a machine register had on entry.
    pub open spec fn register(self, register: MachineRegister) -> u64 {
        match register {
            MachineRegister::Rsp => self.rsp,
            MachineRegister::Rbp => self.rbp,
            MachineRegister::Ra => self.ra,
        }
    }
}

/// A number as a pointer-sized word: the sum of pointers wraps.
pub open spec fn word(n: int) -> u64 {
    (n % 0x1_0000_0000_0000_0000) as u64
}

impl Register {
    /// The value that a defined rule recovers from the input record, the
    /// canonical frame address `cfa` of the row and the memory `memory`.
    pub open spec fn value(self, ctx: Context, cfa: u64, memory: spec_fn(u64) -> u64) -> u64 {
        match self {
            Register::Register(base, offset) => word(ctx.register(base) + offset),
            Register::CfaOffset(offset) => memory(word(cfa + offset)),
            Register::PltExpr => word(ctx.rsp + if ctx.rip % 16 >= 11 { 8int } else { 0int }),
            Register::Undefined => 0,
            Register::Unimplemented => 0,
        }
    }

    /// The expression that is written for a defined rule.
    pub open spec fn term(self) -> Term {
        match self {
            Register::Register(base, offset) => Term::Sum(
                Box::new(Term::Input(base)),
                Box::new(Term::Number(offset as int)),
            ),
            Register::CfaOffset(offset) => Term::Deref(
                Box::new(Term::Sum(Box::new(Term::DerivedRsp), Box::new(Term::Number(offset as int)))),
            ),
            Register::PltExpr => Term::Sum(
                Box::new(
                    Term::Choice {
                        tested: Box::new(Term::Masked(Box::new(Term::InputRip), 15)),
                        bound: 11,
                        reached: 8,
                        otherwise: 0,
                    },
                ),
                Box::new(Term::Input(MachineRegister::Rsp)),
            ),
            Register::Undefined => Term::Number(0),
            Register::Unimplemented => Term::Number(0),
        }
    }
}

/// An expression of the generated source.
pub enum Term {
    /// A decimal number.
    Number(int),
    /// `ctx.` and the field of a machine register.
    Input(MachineRegister),
    /// `ctx.rip`.
    InputRip,
    /// `out_ctx->rsp`: the stack pointer that the leaf has derived.
    DerivedRsp,
    /// `a + b`.
    Sum(Box<Term>, Box<Term>),
    /// `deref(a)`: the word that memory holds at `a`.
    Deref(Box<Term>),
    /// `(a & mask)`.
    Masked(Box<Term>, nat),
    /// `((tested >= bound) ? reached : otherwise)`.
    Choice { tested: Box<Term>, bound: nat, reached: nat, otherwise: nat },
}

impl Term {
    /// The source text of the expression.
    pub open spec fn source(self) -> Seq<char>
        decreases self,
    {
        match self {
            Term::Number(n) => signed_decimal(n),
            Term::Input(register) => "ctx."@ + register.name(),
            Term::InputRip => "ctx.rip"@,
            Term::DerivedRsp => "out_ctx->rsp"@,
            Term::Sum(a, b) => a.source() + " + "@ + b.source(),
            Term::Deref(a) => "deref("@ + a.source() + ")"@,
            Term::Masked(a, mask) => "("@ + a.source() + " & "@ + decimal(mask) + ")"@,
            Term::Choice { tested, bound, reached, otherwise } => "(("@ + tested.source() + " >= "@
                + decimal(bound) + ") ? "@ + decimal(reached) + " : "@ + decimal(otherwise) + ")"@,
        }
    }

    /// The value of the expression, as the generated function computes it
    /// on pointer-sized words: from the input record, the derived stack
    /// pointer and the memory that `deref` reads.
    pub open spec fn eval(self, ctx: Context, derived_rsp: u64, memory: spec_fn(u64) -> u64) -> u64
        decreases self,
    {
        match self {
            Term::Number(n) => word(n),
            Term::Input(register) => ctx.register(register),
            Term::InputRip => ctx.rip,
            Term::DerivedRsp => derived_rsp,
            Term::Sum(a, b) => word(a.eval(ctx, derived_rsp, memory) + b.eval(ctx, derived_rsp, memory)),
            Term::Deref(a) => memory(a.eval(ctx, derived_rsp, memory)),
            Term::Masked(a, mask) => a.eval(ctx, derived_rsp, memory) & word(mask as int),
            Term::Choice { tested, bound, reached, otherwise } => {
                if tested.eval(ctx, derived_rsp, memory) >= bound {
                    word(reached as int)
                } else {
                    word(otherwise as int)
                }
            },
        }
    }
}

/// The expression written for a defined rule is the text of its term.
pub proof fn lemma_expression_is_term_source(rule: Register)
    requires
        rule.defined(),
    ensures
        rule.expression() == rule.term().source(),
{
    reveal_with_fuel(Term::source, 4);
    reveal_strlit("ctx.");
    reveal_strlit("rsp");
    reveal_strlit("ctx.rip");
    reveal_strlit("out_ctx->rsp");
    reveal_strlit(" + ");
    reveal_strlit("deref(");
    reveal_strlit(")");
    reveal_strlit("deref(out_ctx->rsp + ");
    match rule {
        Register::Register(base, offset) => {
            assert(rule.expression() =~= rule.term().source());
        },
        Register::CfaOffset(offset) => {
            assert("deref(out_ctx->rsp + "@ =~= "deref("@ + "out_ctx->rsp"@ + " + "@);
            assert(rule.expression() =~= rule.term().source());
        },
        Register::PltExpr => {
            reveal_strlit("(((ctx.rip & 15) >= 11) ? 8 : 0) + ctx.rsp");
            reveal_strlit("((");
            reveal_strlit("(");
            reveal_strlit(" & ");
            reveal_strlit(" >= ");
            reveal_strlit(") ? ");
            reveal_strlit(" : ");
            assert(decimal(1) =~= seq!['1']);
            assert(decimal(15) =~= seq!['1', '5']);
            assert(decimal(11) =~= seq!['1', '1']);
            assert(decimal(8) =~= seq!['8']);
            assert(decimal(0) =~= seq!['0']);
            let masked = Term::Masked(Box::new(Term::InputRip), 15);
            assert(masked.source() =~= "("@ + "ctx.rip"@ + " & "@ + seq!['1', '5'] + ")"@);
            let choice = Term::Choice { tested: Box::new(masked), bound: 11, reached: 8, otherwise: 0 };
            assert(choice.source() =~= "(("@ + masked.source() + " >= "@ + seq!['1', '1'] + ") ? "@
                + seq!['8'] + " : "@ + seq!['0'] + ")"@);
            let input = Term::Input(MachineRegister::Rsp);
            assert(input.source() =~= "ctx."@ + "rsp"@);
            assert(rule.term().source() =~= choice.source() + " + "@ + input.source());
            assert(rule.expression() =~= rule.term().source());
        },
        _ => {},
    }
}

/// The generated expression computes what the rule means: on every input
/// record, derived stack pointer and memory, the term of a defined rule
/// evaluates to the value of the rule, the derived stack pointer taken as
/// the canonical frame address.
pub proof fn lemma_expression_computes_rule(
    rule: Register,
    ctx: Context,
    cfa: u64,
    memory: spec_fn(u64) -> u64,
)
    requires
        rule.defined(),
    ensures
        rule.term().eval(ctx, cfa, memory) == rule.value(ctx, cfa, memory),
{
    reveal_with_fuel(Term::eval, 4);
    match rule {
        Register::Register(base, offset) => {
            assert(word(ctx.register(base) + word(offset as int)) == word(ctx.register(base) + offset));
        },
        Register::CfaOffset(offset) => {
            assert(word(cfa + word(offset as int)) == word(cfa + offset));
        },
        Register::PltExpr => {
            let rip = ctx.rip;
            assert(word(15) == 15 && word(8) == 8 && word(0) == 0);
            assert(rip & 15 == rip % 16) by (bit_vector);
        },
        _ => {},
    }
}

/// The record that the generated function writes to, `out_ctx`.
pub struct Output {
    pub flags: u8,
    pub rip: u64,
    pub rsp: u64,
    pub rbp: u64,
    pub rbx: u64,
}

/// The statements of a leaf: up to three assignments, in this order, then
/// the status byte and the return.
pub struct Leaf {
    /// What is assigned to `out_ctx->rsp`, if anything.
    pub rsp: Option<Term>,
    /// What is assigned to `out_ctx->rbp`, if anything.
    pub rbp: Option<Term>,
    /// What is assigned to `out_ctx->rip`, if anything.
    pub rip: Option<Term>,
    /// What is assigned to `out_ctx->flags`.
    pub flags: u8,
}

impl Leaf {
    /// The source text of an assignment to a field of the output record, or
    /// nothing.
    pub open spec fn assignment(field: Seq<char>, term: Option<Term>) -> Seq<char> {
        match term {
            Some(term) => "out_ctx->"@ + field + " = "@ + term.source() + ";\n"@,
            None => Seq::empty(),
        }
    }

    /// The source text of the leaf.
    pub open spec fn source(self) -> Seq<char> {
        Self::assignment("rsp"@, self.rsp) + Self::assignment("rbp"@, self.rbp) + Self::assignment(
            "rip"@,
            self.rip,
        ) + "out_ctx->flags = "@ + decimal(self.flags as nat) + "u;\n"@ + "return;\n"@
    }

    /// The output record after the leaf has run: each assignment in turn,
    /// the later ones reading the stack pointer that the first has written.
    pub open spec fn run(self, ctx: Context, out: Output, memory: spec_fn(u64) -> u64) -> Output {
        let rsp = match self.rsp {
            Some(term) => term.eval(ctx, out.rsp, memory),
            None => out.rsp,
        };
        let rbp = match self.rbp {
            Some(term) => term.eval(ctx, rsp, memory),
            None => out.rbp,
        };
        let rip = match self.rip {
            Some(term) => term.eval(ctx, rsp, memory),
            None => out.rip,
        };
        Output { flags: self.flags, rip, rsp, rbp, rbx: out.rbx }
    }
}

impl UnwindTableRow {
    /// The statements that are written for the row.
    pub open spec fn code(self) -> Leaf {
        Leaf {
            rsp: if self.cfa.implemented() { Some(self.cfa.term()) } else { None },
            rbp: if self.rbp.defined() { Some(self.rbp.term()) } else { None },
            rip: if self.ra.defined() { Some(self.ra.term()) } else { None },
            flags: self.flags().bits(),
        }
    }

    /// One unwinding step by the rules of the row: the stack pointer of the
    /// caller is the canonical frame address, the frame pointer and the
    /// return address are recovered relative to it, and the status byte
    /// tells which of them are valid. A field whose rule yields no value
    /// keeps what the output record held.
    pub open spec fn unwound(self, ctx: Context, out: Output, memory: spec_fn(u64) -> u64) -> Output {
        let cfa = if self.cfa.implemented() { self.cfa.value(ctx, out.rsp, memory) } else { out.rsp };
        Output {
            flags: self.flags().bits(),
            rip: if self.ra.defined() { self.ra.value(ctx, cfa, memory) } else { out.rip },
            rsp: cfa,
            rbp: if self.rbp.defined() { self.rbp.value(ctx, cfa, memory) } else { out.rbp },
            rbx: out.rbx,
        }
    }
}

impl Dispatch {
    /// The output record after the generated function has run for the
    /// address `pc`.
    pub open spec fn run(self, pc: int, ctx: Context, out: Output, memory: spec_fn(u64) -> u64) -> Output {
        self.select(pc).code().run(ctx, out, memory)
    }
}

/// The leaf written for a row is the text of its statements.
pub proof fn lemma_leaf_is_code_source(row: UnwindTableRow)
    requires
        row.renderable(),
    ensures
        row.leaf() == row.code().source(),
{
    if row.cfa.implemented() {
        lemma_expression_is_term_source(row.cfa);
    }
    if row.rbp.defined() {
        lemma_expression_is_term_source(row.rbp);
    }
    if row.ra.defined() {
        lemma_expression_is_term_source(row.ra);
    }
    assert(row.leaf() =~= row.code().source());
}

/// The leaf of a row performs the unwinding step of the row, on every input
/// record, output record and memory.
pub proof fn lemma_leaf_performs_step(
    row: UnwindTableRow,
    ctx: Context,
    out: Output,
    memory: spec_fn(u64) -> u64,
)
    requires
        row.renderable(),
    ensures
        row.code().run(ctx, out, memory) == row.unwound(ctx, out, memory),
{
    let cfa = if row.cfa.implemented() { row.cfa.value(ctx, out.rsp, memory) } else { out.rsp };
    if row.cfa.implemented() {
        lemma_expression_computes_rule(row.cfa, ctx, out.rsp, memory);
    }
    if row.rbp.defined() {
        lemma_expression_computes_rule(row.rbp, ctx, cfa, memory);
    }
    if row.ra.defined() {
        lemma_expression_computes_rule(row.ra, ctx, cfa, memory);
    }
}

/// The generated function performs, for every address that a row of the
/// table covers, the unwinding step of that row.
pub proof fn lemma_function_performs_step_of_covering_row(
    rows: Seq<UnwindTableRow>,
    i: int,
    pc: int,
    ctx: Context,
    out: Output,
    memory: spec_fn(u64) -> u64,
)
    requires
        all_well_formed(rows),
        consecutive(rows),
        0 <= i < rows.len(),
        rows[i].covers(pc),
        rows[i].renderable(),
    ensures
        Dispatch::of(rows).run(pc, ctx, out, memory) == rows[i].unwound(ctx, out, memory),
{
    lemma_lookup_selects_covering_row(rows, i, pc);
    lemma_leaf_performs_step(rows[i], ctx, out, memory);
}

} // verus!
