//! The backend's entry point: from an IR program in memory to RISC-V
//! assembly text.

use vstd::prelude::*;

use crate::ir;
use crate::riscv;
use crate::riscv_builder::{BuildError, RiscvBuilder};
use crate::riscv_text_builder::{program_text, RiscvTextBuilder};

verus! {

/// Converts an IR program to RISC-V32IM assembly text: one definition
/// per global, one function per defined IR function, serialized in
/// fixed format.  IR that breaks the selector's internal contracts is
/// reported, not lowered.
pub fn riscv_text_from(prog: &ir::Program) -> (res: Result<String, BuildError>)
    requires
        prog.wf(),
    ensures
        match res {
            Ok(t) => exists|p: riscv::Program|
                #[trigger] t@ == program_text(p) && crate::riscv_builder::step_model::program_built(
                    p,
                    *prog,
                ),
            Err(e) => !crate::riscv_builder::step_model::prog_ok(*prog),
        },
{
    let built = match RiscvBuilder::build(prog) {
        Ok(p) => p,
        Err(e) => {
            return Err(e);
        },
    };
    let text = RiscvTextBuilder::build(&built);
    proof {
        assert(text@ == program_text(built));
    }
    Ok(text)
}

} // verus!
