//! The table as a listing for people: one line per row under a heading.

use vstd::prelude::*;
use vstd::string::*;
use crate::ast::{MachineRegister, Register, UnwindTable, UnwindTableRow};
use crate::text::{hexadecimal, signed_decimal, push_hexadecimal, push_signed_decimal};

verus! {

/// `width - length` spaces, none if that is not positive.
pub open spec fn padding(length: nat, width: nat) -> Seq<char> {
    Seq::new(if length < width { (width - length) as nat } else { 0 }, |i: int| ' ')
}

/// `text`, followed by spaces up to `width` characters if it is shorter.
pub open spec fn padded(text: Seq<char>, width: nat) -> Seq<char> {
    text + padding(text.len(), width)
}

/// A signed number in decimal, with a plus sign unless it is negative.
pub open spec fn with_sign(n: int) -> Seq<char> {
    if n >= 0 {
        "+"@ + signed_decimal(n)
    } else {
        signed_decimal(n)
    }
}

/// Appends `text` to `out`, followed by spaces up to `width` characters.
fn push_padded(out: &mut String, text: &str, width: usize)
    ensures
        final(out)@ == old(out)@ + padded(text@, width as nat),
{
    out.append(text);
    let length = text.unicode_len();
    let mut written: usize = length;
    while written < width
        invariant
            length == text@.len(),
            length <= written,
            written <= width || written == length,
            out@ == old(out)@ + text@ + Seq::new((written - length) as nat, |i: int| ' '),
        decreases width - written,
    {
        out.append(" ");
        proof {
            reveal_strlit(" ");
        }
        assert(Seq::new((written - length) as nat, |i: int| ' ') + " "@ =~= Seq::new(
            (written + 1 - length) as nat,
            |i: int| ' ',
        ));
        written = written + 1;
    }
    assert(final(out)@ =~= old(out)@ + padded(text@, width as nat));
}

impl Register {
    /// The rule in short: `undef`, a register or `cfa` with a signed offset,
    /// `plt`, or `unimpl`.
    pub open spec fn listing(self) -> Seq<char> {
        match self {
            Register::Undefined => "undef"@,
            Register::Register(register, offset) => register.name() + with_sign(offset as int),
            Register::CfaOffset(offset) => "cfa"@ + with_sign(offset as int),
            Register::PltExpr => "plt"@,
            Register::Unimplemented => "unimpl"@,
        }
    }

    /// The rule in short.
    pub fn to_text(&self) -> (s: String)
        ensures
            s@ == self.listing(),
    {
        let mut s = String::new();
        match self {
            Register::Undefined => {
                s.append("undef");
            },
            Register::Register(register, offset) => {
                s.append(register.field());
                if *offset >= 0 {
                    s.append("+");
                }
                push_signed_decimal(&mut s, *offset);
            },
            Register::CfaOffset(offset) => {
                s.append("cfa");
                if *offset >= 0 {
                    s.append("+");
                }
                push_signed_decimal(&mut s, *offset);
            },
            Register::PltExpr => {
                s.append("plt");
            },
            Register::Unimplemented => {
                s.append("unimpl");
            },
        }
        assert(s@ =~= self.listing());
        s
    }
}

impl MachineRegister {
    /// The name of the register.
    pub fn to_text(&self) -> (s: String)
        ensures
            s@ == self.name(),
    {
        String::from_str(self.field())
    }
}

impl UnwindTableRow {
    /// The line of the row: the two addresses in hexadecimal, each padded
    /// to six digits, then the three rules, each padded to eight characters.
    pub open spec fn listing(self) -> Seq<char> {
        "0x"@ + padded(hexadecimal(self.start_address as nat), 6) + "-0x"@ + padded(
            hexadecimal(self.end_address as nat),
            6,
        ) + " "@ + padded(self.cfa.listing(), 8) + " "@ + padded(self.rbp.listing(), 8) + " "@
            + padded(self.ra.listing(), 8)
    }

    /// The line of the row.
    pub fn to_text(&self) -> (s: String)
        ensures
            s@ == self.listing(),
    {
        let mut start = String::new();
        push_hexadecimal(&mut start, self.start_address as u64);
        let mut end = String::new();
        push_hexadecimal(&mut end, self.end_address as u64);
        let cfa = self.cfa.to_text();
        let rbp = self.rbp.to_text();
        let ra = self.ra.to_text();
        let mut s = String::new();
        s.append("0x");
        push_padded(&mut s, start.as_str(), 6);
        s.append("-0x");
        push_padded(&mut s, end.as_str(), 6);
        s.append(" ");
        push_padded(&mut s, cfa.as_str(), 8);
        s.append(" ");
        push_padded(&mut s, rbp.as_str(), 8);
        s.append(" ");
        push_padded(&mut s, ra.as_str(), 8);
        assert(s@ =~= self.listing());
        s
    }
}

/// The heading of the listing.
pub open spec fn heading() -> Seq<char> {
    padded("ip"@, 18) + " "@ + padded("cfa"@, 8) + " "@ + padded("rbp"@, 8) + " "@ + padded("ra"@, 8)
        + "\n"@
}

/// The lines of the rows, each ended by a line feed.
pub open spec fn lines(rows: Seq<UnwindTableRow>) -> Seq<char>
    decreases rows.len(),
{
    if rows.len() == 0 {
        Seq::empty()
    } else {
        lines(rows.drop_last()) + rows.last().listing() + "\n"@
    }
}

impl UnwindTable {
    /// The listing of the table: the heading, then the line of each row in
    /// the order of the table.
    pub open spec fn listing(&self) -> Seq<char> {
        heading() + lines(self.rows@)
    }

    /// The listing of the table.
    pub fn to_text(&self) -> (s: String)
        ensures
            s@ == self.listing(),
    {
        let mut s = String::new();
        push_padded(&mut s, "ip", 18);
        s.append(" ");
        push_padded(&mut s, "cfa", 8);
        s.append(" ");
        push_padded(&mut s, "rbp", 8);
        s.append(" ");
        push_padded(&mut s, "ra", 8);
        s.append("\n");
        assert(s@ =~= heading());
        let mut i: usize = 0;
        while i < self.rows.len()
            invariant
                i <= self.rows@.len(),
                s@ == heading() + lines(self.rows@.take(i as int)),
            decreases self.rows@.len() - i,
        {
            let line = self.rows[i].to_text();
            s.append(line.as_str());
            s.append("\n");
            proof {
                let next = self.rows@.take(i + 1);
                assert(next.drop_last() =~= self.rows@.take(i as int));
                assert(next.last() == self.rows@[i as int]);
                assert(s@ =~= heading() + lines(next));
            }
            i = i + 1;
        }
        assert(self.rows@.take(i as int) =~= self.rows@);
        s
    }
}

} // verus!
