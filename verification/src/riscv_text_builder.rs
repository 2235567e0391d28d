//! RISC-V text builder: one deterministic pass over the in-memory
//! program, appending fixed-format text.  Construction order is output
//! order; nothing is reordered, merged, or dropped.

use vstd::prelude::*;

use crate::num_text::{int_text, push_i32_text, push_u32_text, dec_digits};
use crate::riscv::{reg_name, spec_reg_name, Block, Func, GlobalDef, Inst, MemFill, Program, Reg};

verus! {

/// The fixed indentation of instruction and directive lines.
pub open spec fn tab_text() -> Seq<char> {
    "    "@
}

/// One `name rd, rs1, rs2` line.
pub open spec fn line_r3(name: Seq<char>, a: Reg, b: Reg, c: Reg) -> Seq<char> {
    tab_text() + name + " "@ + spec_reg_name(a) + ", "@ + spec_reg_name(b) + ", "@ + spec_reg_name(
        c,
    ) + "\n"@
}

/// One `name rd, rs` line.
pub open spec fn line_r2(name: Seq<char>, a: Reg, b: Reg) -> Seq<char> {
    tab_text() + name + " "@ + spec_reg_name(a) + ", "@ + spec_reg_name(b) + "\n"@
}

/// One `name rd, rs, imm` line.
pub open spec fn line_ri(name: Seq<char>, a: Reg, b: Reg, imm: i32) -> Seq<char> {
    tab_text() + name + " "@ + spec_reg_name(a) + ", "@ + spec_reg_name(b) + ", "@ + int_text(
        imm as int,
    ) + "\n"@
}

/// One `name r1, imm(r2)` memory access line.
pub open spec fn line_mem(name: Seq<char>, a: Reg, imm: i32, b: Reg) -> Seq<char> {
    tab_text() + name + " "@ + spec_reg_name(a) + ", "@ + int_text(imm as int) + "("@
        + spec_reg_name(b) + ")"@ + "\n"@
}

/// One `name rs, label` line.
pub open spec fn line_rl(name: Seq<char>, a: Reg, label: Seq<char>) -> Seq<char> {
    tab_text() + name + " "@ + spec_reg_name(a) + ", "@ + label + "\n"@
}

/// One `name label` line.
pub open spec fn line_l(name: Seq<char>, label: Seq<char>) -> Seq<char> {
    tab_text() + name + " "@ + label + "\n"@
}

/// One `name rd, imm` line.
pub open spec fn line_rimm(name: Seq<char>, a: Reg, imm: i32) -> Seq<char> {
    tab_text() + name + " "@ + spec_reg_name(a) + ", "@ + int_text(imm as int) + "\n"@
}

/// The text of one instruction, mnemonics and operand order fixed.
pub open spec fn inst_text(i: Inst) -> Seq<char> {
    match i {
        Inst::Beqz { rs, label } => line_rl("beqz"@, rs, label@),
        Inst::Bnez { rs, label } => line_rl("bnez"@, rs, label@),
        Inst::J { label } => line_l("j"@, label@),
        Inst::Call { label } => line_l("call"@, label@),
        Inst::Ret => tab_text() + "ret"@ + "\n"@,
        Inst::Lw { rd, imm12, rs } => line_mem("lw"@, rd, imm12, rs),
        Inst::Sw { rs, imm12, rd } => line_mem("sw"@, rs, imm12, rd),
        Inst::Add { rd, rs1, rs2 } => line_r3("add"@, rd, rs1, rs2),
        Inst::Addi { rd, rs, imm12 } => line_ri("addi"@, rd, rs, imm12),
        Inst::Sub { rd, rs1, rs2 } => line_r3("sub"@, rd, rs1, rs2),
        Inst::Slt { rd, rs1, rs2 } => line_r3("slt"@, rd, rs1, rs2),
        Inst::Sgt { rd, rs1, rs2 } => line_r3("sgt"@, rd, rs1, rs2),
        Inst::Seqz { rd, rs } => line_r2("seqz"@, rd, rs),
        Inst::Snez { rd, rs } => line_r2("snez"@, rd, rs),
        Inst::Xor { rd, rs1, rs2 } => line_r3("xor"@, rd, rs1, rs2),
        Inst::Xori { rd, rs, imm12 } => line_ri("xori"@, rd, rs, imm12),
        Inst::Or { rd, rs1, rs2 } => line_r3("or"@, rd, rs1, rs2),
        Inst::Ori { rd, rs, imm12 } => line_ri("ori"@, rd, rs, imm12),
        Inst::And { rd, rs1, rs2 } => line_r3("and"@, rd, rs1, rs2),
        Inst::Andi { rd, rs, imm12 } => line_ri("andi"@, rd, rs, imm12),
        Inst::Sll { rd, rs1, rs2 } => line_r3("sll"@, rd, rs1, rs2),
        Inst::Srl { rd, rs, rs2 } => line_r3("srl"@, rd, rs, rs2),
        Inst::Sra { rd, rs, rs2 } => line_r3("sra"@, rd, rs, rs2),
        Inst::Mul { rd, rs1, rs2 } => line_r3("mul"@, rd, rs1, rs2),
        Inst::Div { rd, rs1, rs2 } => line_r3("div"@, rd, rs1, rs2),
        Inst::Rem { rd, rs1, rs2 } => line_r3("rem"@, rd, rs1, rs2),
        Inst::Li { rd, imm } => line_rimm("li"@, rd, imm),
        Inst::La { rd, label } => line_rl("la"@, rd, label@),
        Inst::Mv { rd, rs } => line_r2("mv"@, rd, rs),
    }
}

/// The text of the first `n` instructions of a block.
pub open spec fn insts_text(s: Seq<Inst>, n: int) -> Seq<char>
    decreases n,
{
    if n <= 0 {
        Seq::empty()
    } else {
        insts_text(s, n - 1) + inst_text(s[n - 1])
    }
}

/// The text of one block: its label line, then its instructions.
pub open spec fn block_text(b: Block) -> Seq<char> {
    b.name@ + ":\n"@ + insts_text(b.insts@, b.insts@.len() as int)
}

/// The text of the first `n` blocks of a function.
pub open spec fn blocks_text(s: Seq<Block>, n: int) -> Seq<char>
    decreases n,
{
    if n <= 0 {
        Seq::empty()
    } else {
        blocks_text(s, n - 1) + block_text(s[n - 1])
    }
}

/// The text of one function: its `.globl` line, its blocks, and a
/// blank separator line.
pub open spec fn func_text(f: Func) -> Seq<char> {
    tab_text() + ".globl "@ + f.name@ + "\n"@ + blocks_text(f.blocks@, f.blocks@.len() as int)
        + "\n"@
}

/// The text of the first `n` functions.
pub open spec fn funcs_text(s: Seq<Func>, n: int) -> Seq<char>
    decreases n,
{
    if n <= 0 {
        Seq::empty()
    } else {
        funcs_text(s, n - 1) + func_text(s[n - 1])
    }
}

/// The directive of one initializer entry: a literal word or a run of
/// zero bytes.
pub open spec fn fill_text(m: MemFill) -> Seq<char> {
    match m {
        MemFill::Word(w) => tab_text() + ".word "@ + int_text(w as int) + "\n"@,
        MemFill::Zero(n) => tab_text() + ".zero "@ + dec_digits(n as nat) + "\n"@,
    }
}

/// The directives of the first `n` initializer entries.
pub open spec fn fills_text(s: Seq<MemFill>, n: int) -> Seq<char>
    decreases n,
{
    if n <= 0 {
        Seq::empty()
    } else {
        fills_text(s, n - 1) + fill_text(s[n - 1])
    }
}

/// The text of one global definition: its `.globl` line, its label,
/// its initializer directives, and a blank separator line.
pub open spec fn global_text(g: GlobalDef) -> Seq<char> {
    tab_text() + ".globl "@ + g.name@ + "\n"@ + g.name@ + ":\n"@ + fills_text(
        g.init@,
        g.init@.len() as int,
    ) + "\n"@
}

/// The texts of the first `n` global definitions.
pub open spec fn globals_text(s: Seq<GlobalDef>, n: int) -> Seq<char>
    decreases n,
{
    if n <= 0 {
        Seq::empty()
    } else {
        globals_text(s, n - 1) + global_text(s[n - 1])
    }
}

/// The text of a whole program: the data section, then the text
/// section.
pub open spec fn program_text(p: Program) -> Seq<char> {
    tab_text() + ".data\n"@ + globals_text(p.global_defs@, p.global_defs@.len() as int)
        + tab_text() + ".text\n"@ + funcs_text(p.funcs@, p.funcs@.len() as int)
}

/// The RISC-V text builder.
pub struct RiscvTextBuilder {
    pub text: String,
}

/// Appends one three-register line.
fn write_r3(out: &mut String, name: &str, a: Reg, b: Reg, c: Reg)
    ensures
        final(out)@ == old(out)@ + line_r3(name@, a, b, c),
{
    out.append("    ");
    out.append(name);
    out.append(" ");
    out.append(reg_name(a));
    out.append(", ");
    out.append(reg_name(b));
    out.append(", ");
    out.append(reg_name(c));
    out.append("\n");
    proof {
        assert(out@ =~= old(out)@ + line_r3(name@, a, b, c));
    }
}

/// Appends one two-register line.
fn write_r2(out: &mut String, name: &str, a: Reg, b: Reg)
    ensures
        final(out)@ == old(out)@ + line_r2(name@, a, b),
{
    out.append("    ");
    out.append(name);
    out.append(" ");
    out.append(reg_name(a));
    out.append(", ");
    out.append(reg_name(b));
    out.append("\n");
    proof {
        assert(out@ =~= old(out)@ + line_r2(name@, a, b));
    }
}

/// Appends one register-register-immediate line.
fn write_ri(out: &mut String, name: &str, a: Reg, b: Reg, imm: i32)
    ensures
        final(out)@ == old(out)@ + line_ri(name@, a, b, imm),
{
    out.append("    ");
    out.append(name);
    out.append(" ");
    out.append(reg_name(a));
    out.append(", ");
    out.append(reg_name(b));
    out.append(", ");
    push_i32_text(imm, out);
    out.append("\n");
    proof {
        assert(out@ =~= old(out)@ + line_ri(name@, a, b, imm));
    }
}

/// Appends one memory-access line.
fn write_mem(out: &mut String, name: &str, a: Reg, imm: i32, b: Reg)
    ensures
        final(out)@ == old(out)@ + line_mem(name@, a, imm, b),
{
    out.append("    ");
    out.append(name);
    out.append(" ");
    out.append(reg_name(a));
    out.append(", ");
    push_i32_text(imm, out);
    out.append("(");
    out.append(reg_name(b));
    out.append(")");
    out.append("\n");
    proof {
        assert(out@ =~= old(out)@ + line_mem(name@, a, imm, b));
    }
}

/// Appends one register-label line.
fn write_rl(out: &mut String, name: &str, a: Reg, label: &String)
    ensures
        final(out)@ == old(out)@ + line_rl(name@, a, label@),
{
    out.append("    ");
    out.append(name);
    out.append(" ");
    out.append(reg_name(a));
    out.append(", ");
    out.append(label.as_str());
    out.append("\n");
    proof {
        assert(out@ =~= old(out)@ + line_rl(name@, a, label@));
    }
}

/// Appends one label line.
fn write_l(out: &mut String, name: &str, label: &String)
    ensures
        final(out)@ == old(out)@ + line_l(name@, label@),
{
    out.append("    ");
    out.append(name);
    out.append(" ");
    out.append(label.as_str());
    out.append("\n");
    proof {
        assert(out@ =~= old(out)@ + line_l(name@, label@));
    }
}

/// Appends one register-immediate line.
fn write_rimm(out: &mut String, name: &str, a: Reg, imm: i32)
    ensures
        final(out)@ == old(out)@ + line_rimm(name@, a, imm),
{
    out.append("    ");
    out.append(name);
    out.append(" ");
    out.append(reg_name(a));
    out.append(", ");
    push_i32_text(imm, out);
    out.append("\n");
    proof {
        assert(out@ =~= old(out)@ + line_rimm(name@, a, imm));
    }
}

/// Appends the text of one instruction.
#[verifier::rlimit(60)]
#[verifier::spinoff_prover]
fn push_inst_text(out: &mut String, i: &Inst)
    ensures
        final(out)@ == old(out)@ + inst_text(*i),
{
    match i {
        Inst::Beqz { rs, label } => write_rl(out, "beqz", *rs, label),
        Inst::Bnez { rs, label } => write_rl(out, "bnez", *rs, label),
        Inst::J { label } => write_l(out, "j", label),
        Inst::Call { label } => write_l(out, "call", label),
        Inst::Ret => {
            out.append("    ");
            out.append("ret");
            out.append("\n");
            proof {
                assert(out@ =~= old(out)@ + inst_text(*i));
            }
        },
        Inst::Lw { rd, imm12, rs } => write_mem(out, "lw", *rd, *imm12, *rs),
        Inst::Sw { rs, imm12, rd } => write_mem(out, "sw", *rs, *imm12, *rd),
        Inst::Add { rd, rs1, rs2 } => write_r3(out, "add", *rd, *rs1, *rs2),
        Inst::Addi { rd, rs, imm12 } => write_ri(out, "addi", *rd, *rs, *imm12),
        Inst::Sub { rd, rs1, rs2 } => write_r3(out, "sub", *rd, *rs1, *rs2),
        Inst::Slt { rd, rs1, rs2 } => write_r3(out, "slt", *rd, *rs1, *rs2),
        Inst::Sgt { rd, rs1, rs2 } => write_r3(out, "sgt", *rd, *rs1, *rs2),
        Inst::Seqz { rd, rs } => write_r2(out, "seqz", *rd, *rs),
        Inst::Snez { rd, rs } => write_r2(out, "snez", *rd, *rs),
        Inst::Xor { rd, rs1, rs2 } => write_r3(out, "xor", *rd, *rs1, *rs2),
        Inst::Xori { rd, rs, imm12 } => write_ri(out, "xori", *rd, *rs, *imm12),
        Inst::Or { rd, rs1, rs2 } => write_r3(out, "or", *rd, *rs1, *rs2),
        Inst::Ori { rd, rs, imm12 } => write_ri(out, "ori", *rd, *rs, *imm12),
        Inst::And { rd, rs1, rs2 } => write_r3(out, "and", *rd, *rs1, *rs2),
        Inst::Andi { rd, rs, imm12 } => write_ri(out, "andi", *rd, *rs, *imm12),
        Inst::Sll { rd, rs1, rs2 } => write_r3(out, "sll", *rd, *rs1, *rs2),
        Inst::Srl { rd, rs, rs2 } => write_r3(out, "srl", *rd, *rs, *rs2),
        Inst::Sra { rd, rs, rs2 } => write_r3(out, "sra", *rd, *rs, *rs2),
        Inst::Mul { rd, rs1, rs2 } => write_r3(out, "mul", *rd, *rs1, *rs2),
        Inst::Div { rd, rs1, rs2 } => write_r3(out, "div", *rd, *rs1, *rs2),
        Inst::Rem { rd, rs1, rs2 } => write_r3(out, "rem", *rd, *rs1, *rs2),
        Inst::Li { rd, imm } => write_rimm(out, "li", *rd, *imm),
        Inst::La { rd, label } => write_rl(out, "la", *rd, label),
        Inst::Mv { rd, rs } => write_r2(out, "mv", *rd, *rs),
    }
}

impl RiscvTextBuilder {
    /// Creates a builder with empty text.
    pub fn new() -> (b: Self)
        ensures
            b.text@ == Seq::<char>::empty(),
    {
        RiscvTextBuilder { text: String::new() }
    }

    /// Appends the text of one block.
    fn push_block(&mut self, b: &Block)
        ensures
            final(self).text@ == old(self).text@ + block_text(*b),
    {
        self.text.append(b.name.as_str());
        self.text.append(":\n");
        let ghost base = self.text@;
        let mut i: usize = 0;
        while i < b.insts.len()
            invariant
                i <= b.insts@.len(),
                self.text@ == base + insts_text(b.insts@, i as int),
            decreases b.insts@.len() - i,
        {
            push_inst_text(&mut self.text, &b.insts[i]);
            proof {
                assert((base + insts_text(b.insts@, i as int)) + inst_text(b.insts@[i as int])
                    =~= base + insts_text(b.insts@, i + 1));
            }
            i += 1;
        }
        proof {
            assert(old(self).text@ + b.name@ + ":\n"@ =~= base);
            assert(base + insts_text(b.insts@, b.insts@.len() as int) =~= old(self).text@
                + block_text(*b));
        }
    }

    /// Appends the text of one function.
    fn push_func(&mut self, f: &Func)
        ensures
            final(self).text@ == old(self).text@ + func_text(*f),
    {
        self.text.append("    ");
        self.text.append(".globl ");
        self.text.append(f.name.as_str());
        self.text.append("\n");
        let ghost base = self.text@;
        let mut b: usize = 0;
        while b < f.blocks.len()
            invariant
                b <= f.blocks@.len(),
                self.text@ == base + blocks_text(f.blocks@, b as int),
            decreases f.blocks@.len() - b,
        {
            self.push_block(&f.blocks[b]);
            proof {
                assert((base + blocks_text(f.blocks@, b as int)) + block_text(f.blocks@[b as int])
                    =~= base + blocks_text(f.blocks@, b + 1));
            }
            b += 1;
        }
        self.text.append("\n");
        proof {
            assert(old(self).text@ + tab_text() + ".globl "@ + f.name@ + "\n"@ =~= base);
            assert((base + blocks_text(f.blocks@, f.blocks@.len() as int)) + "\n"@ =~= old(
                self,
            ).text@ + func_text(*f));
        }
    }

    /// Appends the text of one global definition.
    fn push_global(&mut self, g: &GlobalDef)
        ensures
            final(self).text@ == old(self).text@ + global_text(*g),
    {
        self.text.append("    ");
        self.text.append(".globl ");
        self.text.append(g.name.as_str());
        self.text.append("\n");
        self.text.append(g.name.as_str());
        self.text.append(":\n");
        let ghost base = self.text@;
        let mut i: usize = 0;
        while i < g.init.len()
            invariant
                i <= g.init@.len(),
                self.text@ == base + fills_text(g.init@, i as int),
            decreases g.init@.len() - i,
        {
            match &g.init[i] {
                MemFill::Word(w) => {
                    self.text.append("    ");
                    self.text.append(".word ");
                    push_i32_text(*w, &mut self.text);
                    self.text.append("\n");
                },
                MemFill::Zero(n) => {
                    self.text.append("    ");
                    self.text.append(".zero ");
                    proof {
                        assert(*n as u32 as nat == *n as nat || *n > u32::MAX);
                    }
                    push_usize_text(*n, &mut self.text);
                    self.text.append("\n");
                },
            }
            proof {
                assert(self.text@ =~= (base + fills_text(g.init@, i as int)) + fill_text(
                    g.init@[i as int],
                ));
                assert((base + fills_text(g.init@, i as int)) + fill_text(g.init@[i as int])
                    =~= base + fills_text(g.init@, i + 1));
            }
            i += 1;
        }
        self.text.append("\n");
        proof {
            assert(old(self).text@ + tab_text() + ".globl "@ + g.name@ + "\n"@ + g.name@ + ":\n"@
                =~= base);
            assert((base + fills_text(g.init@, g.init@.len() as int)) + "\n"@ =~= old(self).text@
                + global_text(*g));
        }
    }

    /// Serializes the program: the data section, then the text section.
    pub fn build(prog: &Program) -> (text: String)
        ensures
            text@ == program_text(*prog),
    {
        let mut builder = RiscvTextBuilder::new();
        builder.text.append("    ");
        builder.text.append(".data\n");
        let ghost base1 = builder.text@;
        let mut g: usize = 0;
        while g < prog.global_defs.len()
            invariant
                g <= prog.global_defs@.len(),
                builder.text@ == base1 + globals_text(prog.global_defs@, g as int),
            decreases prog.global_defs@.len() - g,
        {
            builder.push_global(&prog.global_defs[g]);
            proof {
                assert((base1 + globals_text(prog.global_defs@, g as int)) + global_text(
                    prog.global_defs@[g as int],
                ) =~= base1 + globals_text(prog.global_defs@, g + 1));
            }
            g += 1;
        }
        builder.text.append("    ");
        builder.text.append(".text\n");
        let ghost base2 = builder.text@;
        let mut f: usize = 0;
        while f < prog.funcs.len()
            invariant
                f <= prog.funcs@.len(),
                builder.text@ == base2 + funcs_text(prog.funcs@, f as int),
            decreases prog.funcs@.len() - f,
        {
            builder.push_func(&prog.funcs[f]);
            proof {
                assert((base2 + funcs_text(prog.funcs@, f as int)) + func_text(
                    prog.funcs@[f as int],
                ) =~= base2 + funcs_text(prog.funcs@, f + 1));
            }
            f += 1;
        }
        proof {
            assert(Seq::<char>::empty() + tab_text() + ".data\n"@ =~= base1);
            assert(base1 + globals_text(prog.global_defs@, prog.global_defs@.len() as int)
                + tab_text() + ".text\n"@ =~= base2);
            assert(base2 + funcs_text(prog.funcs@, prog.funcs@.len() as int) =~= program_text(
                *prog,
            ));
        }
        builder.text
    }
}

/// Appends the decimal digits of a machine word count.
fn push_usize_text(n: usize, out: &mut String)
    ensures
        final(out)@ == old(out)@ + dec_digits(n as nat),
{
    push_u64_digits(n as u64, out);
}

/// Appends the decimal digits of a 64-bit number.
fn push_u64_digits(n: u64, out: &mut String)
    ensures
        final(out)@ == old(out)@ + dec_digits(n as nat),
    decreases n,
{
    if n < 10 {
        push_u32_text(n as u32, out);
    } else {
        push_u64_digits(n / 10, out);
        push_u32_text((n % 10) as u32, out);
        proof {
            assert((old(out)@ + dec_digits(n as nat / 10)) + dec_digits(n as nat % 10) =~= old(
                out,
            )@ + dec_digits(n as nat));
        }
    }
}

} // verus!
