use ehframe_bpf_compiler::ast::{MachineRegister, Register, UnwindTable, UnwindTableRow};
use ehframe_bpf_compiler::gen::gen_rows;

/// Runs generated statements for the address `pc` and returns the lines
/// executed, up to and including the first `return;`.
fn run_block(lines: &[&str], at: &mut usize, pc: usize, active: &mut bool, executed: &mut Vec<String>) {
    while *at < lines.len() {
        let line = lines[*at];
        if line == "}" || line == "} else {" {
            return;
        }
        *at += 1;
        if let Some(rest) = line.strip_prefix("if(0x") {
            let (low, rest) = rest.split_once(" <= pc && pc < 0x").unwrap();
            let high = rest.strip_suffix(") {").unwrap();
            let low = usize::from_str_radix(low, 16).unwrap();
            let high = usize::from_str_radix(high, 16).unwrap();
            let holds = low <= pc && pc < high;
            let mut inside = *active && holds;
            run_block(lines, at, pc, &mut inside, executed);
            assert_eq!(lines[*at], "} else {");
            *at += 1;
            let mut outside = *active && !holds;
            run_block(lines, at, pc, &mut outside, executed);
            assert_eq!(lines[*at], "}");
            *at += 1;
            if *active {
                *active = inside || outside;
            }
        } else if *active {
            executed.push(line.to_string());
            if line == "return;" {
                *active = false;
            }
        }
    }
}

fn run(text: &str, pc: usize) -> String {
    let lines: Vec<&str> = text.lines().collect();
    let mut at = 0;
    let mut active = true;
    let mut executed = Vec::new();
    run_block(&lines, &mut at, pc, &mut active, &mut executed);
    assert_eq!(at, lines.len());
    executed.iter().map(|line| format!("{}\n", line)).collect()
}

fn numbered(start: usize, end: usize, number: isize) -> UnwindTableRow {
    UnwindTableRow {
        start_address: start,
        end_address: end,
        cfa: Register::Register(MachineRegister::Rsp, number),
        rbp: Register::Undefined,
        ra: Register::CfaOffset(-8),
    }
}

fn leaf_of(row: &UnwindTableRow) -> String {
    let mut out = String::new();
    row.gen(&mut out);
    out
}

#[test]
fn every_covered_address_reaches_its_row() {
    for count in 1..=17usize {
        let rows: Vec<UnwindTableRow> = (0..count)
            .map(|i| numbered(0x1000 + i * 0x20, 0x1000 + i * 0x20 + 0x10 + (i % 3) * 8, i as isize))
            .collect();
        let mut text = String::new();
        gen_rows(&mut text, &rows);
        assert_eq!(text.matches("if(").count(), count - 1);
        for row in &rows {
            let middle = row.start_address + (row.end_address - row.start_address) / 2;
            for pc in [row.start_address, middle, row.end_address - 1] {
                assert_eq!(run(&text, pc), leaf_of(row));
            }
        }
    }
}

#[test]
fn adjoining_rows_meet_at_the_boundary() {
    let rows = vec![numbered(0x0, 0x10, 1), numbered(0x10, 0x20, 2), numbered(0x20, 0x21, 3)];
    let mut text = String::new();
    gen_rows(&mut text, &rows);
    assert_eq!(run(&text, 0x0f), leaf_of(&rows[0]));
    assert_eq!(run(&text, 0x10), leaf_of(&rows[1]));
    assert_eq!(run(&text, 0x1f), leaf_of(&rows[1]));
    assert_eq!(run(&text, 0x20), leaf_of(&rows[2]));
}

#[test]
fn lookup_after_sorting_shuffled_rows() {
    let shuffled = vec![
        numbered(0x300, 0x310, 3),
        numbered(0x100, 0x180, 1),
        numbered(0x400, 0x401, 4),
        numbered(0x200, 0x2ff, 2),
        numbered(0x0, 0x100, 0),
    ];
    let table = UnwindTable::from_rows(shuffled.clone());
    let mut text = String::new();
    gen_rows(&mut text, &table.rows);
    for row in &shuffled {
        assert_eq!(run(&text, row.start_address), leaf_of(row));
        assert_eq!(run(&text, row.end_address - 1), leaf_of(row));
    }
}

#[test]
fn depth_is_logarithmic() {
    for (count, depth) in [(1usize, 0usize), (2, 1), (3, 2), (4, 2), (5, 3), (8, 3), (9, 4), (16, 4), (17, 5)] {
        let rows: Vec<UnwindTableRow> =
            (0..count).map(|i| numbered(i * 4, i * 4 + 4, i as isize)).collect();
        let mut text = String::new();
        gen_rows(&mut text, &rows);
        let mut open = 0usize;
        let mut deepest = 0usize;
        for line in text.lines() {
            if line.starts_with("if(") {
                open += 1;
                deepest = deepest.max(open);
            } else if line == "}" {
                open -= 1;
            }
        }
        assert_eq!(open, 0);
        assert_eq!(deepest, depth);
    }
}

struct Input {
    rip: u64,
    rsp: u64,
    rbp: u64,
    ra: u64,
}

/// Evaluates a generated expression on pointer-sized words.
fn evaluate(text: &str, ctx: &Input, derived_rsp: u64, memory: &dyn Fn(u64) -> u64) -> u64 {
    if text == "(((ctx.rip & 15) >= 11) ? 8 : 0) + ctx.rsp" {
        return (if (ctx.rip & 15) >= 11 { 8u64 } else { 0u64 }).wrapping_add(ctx.rsp);
    }
    if let Some(inner) = text.strip_prefix("deref(").and_then(|rest| rest.strip_suffix(")")) {
        return memory(evaluate(inner, ctx, derived_rsp, memory));
    }
    let (base, offset) = text.split_once(" + ").unwrap();
    let base = match base {
        "ctx.rsp" => ctx.rsp,
        "ctx.rbp" => ctx.rbp,
        "ctx.ra" => ctx.ra,
        "out_ctx->rsp" => derived_rsp,
        _ => panic!("unknown operand {}", base),
    };
    base.wrapping_add(offset.parse::<i64>().unwrap() as u64)
}

/// The value of a rule, directly from its meaning.
fn value(rule: Register, ctx: &Input, cfa: u64, memory: &dyn Fn(u64) -> u64) -> u64 {
    match rule {
        Register::Register(MachineRegister::Rsp, n) => ctx.rsp.wrapping_add(n as u64),
        Register::Register(MachineRegister::Rbp, n) => ctx.rbp.wrapping_add(n as u64),
        Register::Register(MachineRegister::Ra, n) => ctx.ra.wrapping_add(n as u64),
        Register::CfaOffset(n) => memory(cfa.wrapping_add(n as u64)),
        Register::PltExpr => ctx.rsp.wrapping_add(if ctx.rip % 16 >= 11 { 8 } else { 0 }),
        Register::Undefined | Register::Unimplemented => unreachable!(),
    }
}

#[test]
fn expressions_compute_their_rules() {
    let memory = |address: u64| address.rotate_left(17) ^ 0x5555_aaaa_5555_aaaa;
    let rules = [
        Register::Register(MachineRegister::Rsp, 16),
        Register::Register(MachineRegister::Rsp, -8),
        Register::Register(MachineRegister::Rbp, 0),
        Register::Register(MachineRegister::Ra, isize::MAX),
        Register::CfaOffset(-8),
        Register::CfaOffset(24),
        Register::CfaOffset(isize::MIN),
        Register::PltExpr,
    ];
    for rip in [0x401000u64, 0x40100a, 0x40100b, 0x40100f, u64::MAX] {
        for rsp in [0u64, 8, 0x7fff_ffff_e000, u64::MAX - 3] {
            let ctx = Input { rip, rsp, rbp: 0x7fff_ffff_e100, ra: 0x401234 };
            for cfa in [0u64, 0x7fff_ffff_e010, u64::MAX] {
                for rule in rules {
                    let mut text = String::new();
                    rule.gen(&mut text);
                    assert_eq!(evaluate(&text, &ctx, cfa, &memory), value(rule, &ctx, cfa, &memory));
                }
            }
        }
    }
    let ctx = Input { rip: 0x40100b, rsp: 0x1000, rbp: 0, ra: 0 };
    assert_eq!(evaluate("(((ctx.rip & 15) >= 11) ? 8 : 0) + ctx.rsp", &ctx, 0, &memory), 0x1008);
    assert_eq!(evaluate("ctx.rsp + 16", &ctx, 0, &memory), 0x1010);
    assert_eq!(evaluate("deref(out_ctx->rsp + -8)", &ctx, 0x1010, &memory), memory(0x1008));
}
