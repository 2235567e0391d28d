//! End-to-end and component tests of the RISC-V backend.

use sysyc::ir::{BinaryOp, BlockData, Func, GlobalData, InitVal, Program, ValueData, ValueKind};
use sysyc::riscv::Inst;
use sysyc::riscv_builder::{BuildError, RiscvBuilder};
use sysyc::riscv_text_builder::RiscvTextBuilder;
use sysyc::backend::riscv_text_from;
use sysyc::func_meta::FuncMeta;

fn val(kind: ValueKind, used_by: Vec<usize>) -> ValueData {
    ValueData { kind, used_by }
}

fn empty_program_with(funcs: Vec<Func>) -> Program {
    Program { globals: Vec::new(), funcs }
}

/// `fun @main(): i32 { %entry: %0 = add 1, 2; %1 = mul %0, 3; ret %1 }`
fn main_add_mul() -> Program {
    let values = vec![
        val(ValueKind::Integer { value: 1 }, vec![2]),
        val(ValueKind::Integer { value: 2 }, vec![2]),
        val(ValueKind::Binary { op: BinaryOp::Add, lhs: 0, rhs: 1 }, vec![4]),
        val(ValueKind::Integer { value: 3 }, vec![4]),
        val(ValueKind::Binary { op: BinaryOp::Mul, lhs: 2, rhs: 3 }, vec![5]),
        val(ValueKind::Return { value: Some(4) }, vec![]),
    ];
    let blocks = vec![BlockData { name: String::from("entry"), insts: vec![2, 4, 5] }];
    empty_program_with(vec![Func {
        name: String::from("main"),
        params: vec![],
        values,
        blocks,
    }])
}

#[test]
fn end_to_end_add_mul() {
    let prog = main_add_mul();
    let text = riscv_text_from(&prog).unwrap();
    let expected = "    .data\n    .text\n    .globl main\nmain:\n    li t1, 1\n    li t2, 2\n    add s1, t1, t2\n    li t1, 3\n    mul t2, s1, t1\n    mv a0, t2\n    ret\n\n";
    assert_eq!(text, expected);
    assert_eq!(text.matches(".globl main").count(), 1);
    assert_eq!(text.matches("ret").count(), 1);
}

#[test]
fn end_to_end_leaf_frame_is_zero() {
    // The lowered leaf function with no locals never touches sp.
    let prog = main_add_mul();
    let text = riscv_text_from(&prog).unwrap();
    assert!(!text.contains("sp"));
    assert!(!text.contains("ra"));
}

/// An `eq` between a literal `0` and a runtime value collapses to
/// `seqz` alone; between two runtime values it is `xor` then `seqz`.
#[test]
fn eq_with_zero_literal_collapses_to_seqz() {
    let values = vec![
        val(ValueKind::FuncArgRef { index: 0 }, vec![2]),
        val(ValueKind::Integer { value: 0 }, vec![2]),
        val(ValueKind::Binary { op: BinaryOp::Eq, lhs: 1, rhs: 0 }, vec![3]),
        val(ValueKind::Return { value: Some(2) }, vec![]),
    ];
    let blocks = vec![BlockData { name: String::from("entry"), insts: vec![2, 3] }];
    let prog = empty_program_with(vec![Func {
        name: String::from("is_zero"),
        params: vec![0],
        values,
        blocks,
    }]);
    let text = riscv_text_from(&prog).unwrap();
    assert!(text.contains("seqz"));
    assert!(!text.contains("xor"));
    // No register is spent and no li is emitted for the zero literal.
    assert!(!text.contains("li"));
}

#[test]
fn eq_of_two_runtime_values_keeps_xor() {
    let values = vec![
        val(ValueKind::FuncArgRef { index: 0 }, vec![2]),
        val(ValueKind::FuncArgRef { index: 1 }, vec![2]),
        val(ValueKind::Binary { op: BinaryOp::Eq, lhs: 0, rhs: 1 }, vec![3]),
        val(ValueKind::Return { value: Some(2) }, vec![]),
    ];
    let blocks = vec![BlockData { name: String::from("entry"), insts: vec![2, 3] }];
    let prog = empty_program_with(vec![Func {
        name: String::from("same"),
        params: vec![0, 1],
        values,
        blocks,
    }]);
    let text = riscv_text_from(&prog).unwrap();
    assert!(text.contains("xor t1, a0, a1"));
    assert!(text.contains("seqz t1, t1"));
}

/// A function that calls another saves and restores `ra` around its
/// frame and saves exactly the live registers across the call.
#[test]
fn call_saves_live_registers_and_ra() {
    let values = vec![
        val(ValueKind::Integer { value: 1 }, vec![2]),
        val(ValueKind::Integer { value: 2 }, vec![2]),
        val(ValueKind::Binary { op: BinaryOp::Add, lhs: 0, rhs: 1 }, vec![4]),
        val(
            ValueKind::Call { callee: String::from("getint"), args: vec![] },
            vec![],
        ),
        val(ValueKind::Return { value: Some(2) }, vec![]),
    ];
    let blocks = vec![BlockData { name: String::from("entry"), insts: vec![2, 3, 4] }];
    let prog = empty_program_with(vec![Func {
        name: String::from("main"),
        params: vec![],
        values,
        blocks,
    }]);
    let text = riscv_text_from(&prog).unwrap();
    // Non-leaf prologue and epilogue handle ra symmetrically.
    assert!(text.contains("addi sp, sp, -16"));
    assert!(text.contains("sw ra, 12(sp)"));
    assert!(text.contains("lw ra, 12(sp)"));
    assert!(text.contains("addi sp, sp, 16"));
    // The one live register is saved before and restored after the call.
    assert!(text.contains("addi sp, sp, -4\n    sw s1, 0(sp)\n    call getint\n    lw s1, 0(sp)\n    addi sp, sp, 4\n"));
}

/// A leaf function never emits a save or restore of `ra`.
#[test]
fn leaf_never_touches_ra() {
    let prog = main_add_mul();
    let text = riscv_text_from(&prog).unwrap();
    assert!(!text.contains("ra"));
}

/// The computed frame size is a multiple of 16 and covers locals, the
/// return-address word, and the staging area.
#[test]
fn frame_size_is_aligned_and_covers_locals() {
    let values = vec![
        val(ValueKind::Alloc { size: 4 }, vec![]),
        val(ValueKind::Alloc { size: 8 }, vec![]),
        val(
            ValueKind::Call { callee: String::from("getint"), args: vec![] },
            vec![],
        ),
        val(ValueKind::Return { value: None }, vec![]),
    ];
    let blocks = vec![BlockData { name: String::from("entry"), insts: vec![0, 1, 2, 3] }];
    let func = Func { name: String::from("f"), params: vec![], values, blocks };
    let meta = FuncMeta::from(&func);
    // 4 + 8 locals + 4 for ra = 16.
    assert_eq!(meta.frame_size(), 16);
    assert_eq!(meta.frame_size() % 16, 0);
    assert!(!meta.is_leaf());
    assert_eq!(meta.arg_size(), 0);
    assert_eq!(meta.offset(0), Some(0));
    assert_eq!(meta.offset(1), Some(4));
    assert_eq!(meta.offset(2), None);
}

/// Beyond eight call arguments, the staging area appears and shifts
/// every earlier offset upward.
#[test]
fn stack_arguments_reserve_staging_area() {
    let mut values = vec![val(ValueKind::Alloc { size: 4 }, vec![])];
    let mut args = Vec::new();
    for i in 0..10 {
        values.push(val(ValueKind::Integer { value: i as i32 }, vec![11]));
        args.push(i + 1);
    }
    values.push(val(ValueKind::Call { callee: String::from("g"), args }, vec![]));
    values.push(val(ValueKind::Return { value: None }, vec![]));
    let blocks = vec![BlockData { name: String::from("entry"), insts: vec![0, 11, 12] }];
    let func = Func { name: String::from("f"), params: vec![], values, blocks };
    let meta = FuncMeta::from(&func);
    // Staging for two stack-passed arguments.
    assert_eq!(meta.arg_size(), 8);
    // The local sits above the staging area.
    assert_eq!(meta.offset(0), Some(8));
    // 4 local + 4 ra + 8 staging = 16.
    assert_eq!(meta.frame_size(), 16);
}

/// An addressing immediate outside the 12-bit range is materialized
/// through the scratch register; one inside is not.
#[test]
fn addressing_immediate_policy() {
    let mut builder = RiscvBuilder::new();
    let func = Func {
        name: String::from("f"),
        params: vec![],
        values: vec![],
        blocks: vec![BlockData { name: String::from("entry"), insts: vec![] }],
    };
    builder.enter_func(&func);
    builder.enter_block(&func, 0, true);
    builder.build_lw(6, 2047, 2);
    builder.build_lw(6, 2048, 2);
    let insts = &builder.prog.funcs[0].blocks[0].insts;
    assert!(matches!(insts[0], Inst::Lw { rd: 6, imm12: 2047, rs: 2 }));
    assert!(matches!(insts[1], Inst::Li { rd: 5, imm: 2048 }));
    assert!(matches!(insts[2], Inst::Add { rd: 5, rs1: 2, rs2: 5 }));
    assert!(matches!(insts[3], Inst::Lw { rd: 6, imm12: 0, rs: 5 }));
    assert_eq!(insts.len(), 4);
}

#[test]
fn addi_zero_is_elided_or_a_move() {
    let mut builder = RiscvBuilder::new();
    let func = Func {
        name: String::from("f"),
        params: vec![],
        values: vec![],
        blocks: vec![BlockData { name: String::from("entry"), insts: vec![] }],
    };
    builder.enter_func(&func);
    builder.enter_block(&func, 0, true);
    builder.build_addi(2, 2, 0);
    assert_eq!(builder.prog.funcs[0].blocks[0].insts.len(), 0);
    builder.build_addi(6, 2, 0);
    let insts = &builder.prog.funcs[0].blocks[0].insts;
    assert!(matches!(insts[0], Inst::Mv { rd: 6, rs: 2 }));
    assert_eq!(insts.len(), 1);
}

/// Globals become `.data` definitions with their flattened images.
#[test]
fn globals_emit_word_and_zero_directives() {
    let globals = vec![
        GlobalData { name: String::from("x"), init: InitVal::Word(7) },
        GlobalData { name: String::from("z"), init: InitVal::Zero(40) },
        GlobalData {
            name: String::from("arr"),
            init: InitVal::List(vec![
                InitVal::Word(1),
                InitVal::List(vec![InitVal::Word(2), InitVal::Word(3)]),
            ]),
        },
    ];
    let prog = Program { globals, funcs: vec![] };
    let text = riscv_text_from(&prog).unwrap();
    let expected = "    .data\n    .globl x\nx:\n    .word 7\n\n    .globl z\nz:\n    .zero 40\n\n    .globl arr\narr:\n    .word 1\n    .word 2\n    .word 3\n\n    .text\n";
    assert_eq!(text, expected);
}

/// Malformed IR is reported, never lowered: an operand that is not
/// live, a kind outside the lowering table, a missing staging slot.
#[test]
fn malformed_ir_is_reported() {
    // A binary whose operand was never produced.
    let values = vec![
        val(ValueKind::Load { src: 1 }, vec![]),
        val(ValueKind::Binary { op: BinaryOp::Add, lhs: 0, rhs: 0 }, vec![]),
        val(ValueKind::Return { value: None }, vec![]),
    ];
    let blocks = vec![BlockData { name: String::from("entry"), insts: vec![1, 2] }];
    let prog = empty_program_with(vec![Func {
        name: String::from("f"),
        params: vec![],
        values,
        blocks,
    }]);
    assert_eq!(riscv_text_from(&prog), Err(BuildError::UnboundOperand));

    // A kind with no entry in the lowering table.
    let values = vec![
        val(ValueKind::GlobalRef { name: String::from("x") }, vec![]),
        val(ValueKind::Return { value: None }, vec![]),
    ];
    let blocks = vec![BlockData { name: String::from("entry"), insts: vec![0, 1] }];
    let prog = empty_program_with(vec![Func {
        name: String::from("f"),
        params: vec![],
        values,
        blocks,
    }]);
    assert_eq!(riscv_text_from(&prog), Err(BuildError::UnexpectedKind));

    // A call argument with no staging slot.
    let values = vec![
        val(ValueKind::Alloc { size: 4 }, vec![]),
        val(ValueKind::Load { src: 0 }, vec![]),
        val(
            ValueKind::Call { callee: String::from("g"), args: vec![1] },
            vec![],
        ),
        val(ValueKind::Return { value: None }, vec![]),
    ];
    // The load's unique use is the call, but it is listed with two
    // users so no staging slot is reserved for it.
    let mut values = values;
    values[1].used_by = vec![2, 3];
    let blocks = vec![BlockData { name: String::from("entry"), insts: vec![0, 1, 2, 3] }];
    let prog = empty_program_with(vec![Func {
        name: String::from("f"),
        params: vec![],
        values,
        blocks,
    }]);
    assert_eq!(riscv_text_from(&prog), Err(BuildError::MissingOffset));
}

/// The emitter is a plain serializer: construction order is output
/// order.
#[test]
fn emitter_preserves_construction_order() {
    let prog = sysyc::riscv::Program {
        global_defs: vec![],
        funcs: vec![sysyc::riscv::Func {
            name: String::from("f"),
            blocks: vec![sysyc::riscv::Block {
                name: String::from("f"),
                insts: vec![
                    Inst::Li { rd: 6, imm: -5 },
                    Inst::Sw { rs: 6, imm12: 0, rd: 2 },
                    Inst::Ret,
                ],
            }],
        }],
    };
    let text = RiscvTextBuilder::build(&prog);
    let expected = "    .data\n    .text\n    .globl f\nf:\n    li t1, -5\n    sw t1, 0(sp)\n    ret\n\n";
    assert_eq!(text, expected);
}
