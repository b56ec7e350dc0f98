use cilk::convert::convert_function;
use cilk::frame_object::{FrameIndexInfo, FrameIndexKind, FrameObjectsInfo, LocalVariables};
use cilk::ir::{BasicBlock, Function, Instruction, Module, Opcode, Operand, Value};
use cilk::ir_liveness::IRLivenessAnalyzer;
use cilk::isel::MISelector;
use cilk::machine::{MachineOpcode, MachineOperand};
use cilk::pipeline::{standard_conversion_into_machine_module, validate_frame_index, CodegenError};
use cilk::types::{ArrayType, CompoundType, StructType, Type, Types};
use cilk::roundup;

fn inst(opcode: Opcode, operands: Vec<Operand>, ty: Type) -> Instruction {
    Instruction { opcode, operands, ty }
}

fn block(iseq: Vec<usize>, pred: Vec<usize>, succ: Vec<usize>) -> BasicBlock {
    let mut b = BasicBlock::new();
    b.iseq = iseq.into_iter().map(Value::Instruction).collect();
    b.pred = pred;
    b.succ = succ;
    b
}

fn one_block_module(insts: Vec<Instruction>) -> Module {
    let n = insts.len();
    let mut m = Module::new("cilk".to_string());
    m.functions.push(Function {
        name: "test".to_string(),
        basic_blocks: vec![block((0..n).collect(), vec![], vec![])],
        inst_table: insts,
        ret_ty: Type::Int32,
    });
    m
}

#[test]
fn roundup_matches_formula() {
    assert_eq!(roundup(20, 16), 32);
    assert_eq!(roundup(16, 16), 16);
    assert_eq!(roundup(0, 16), 0);
    assert_eq!(roundup(1, 16), 16);
    assert_eq!(roundup(17, 4), 20);
}

#[test]
fn scalar_type_sizes() {
    let tys = Types::new();
    assert_eq!(Type::Int1.size_in_byte(&tys), 1);
    assert_eq!(Type::Int8.size_in_byte(&tys), 1);
    assert_eq!(Type::Int32.size_in_byte(&tys), 4);
    assert_eq!(Type::Int64.size_in_byte(&tys), 8);
    assert_eq!(Type::F64.size_in_byte(&tys), 8);
    assert_eq!(Type::Void.size_in_byte(&tys), 0);
    assert_eq!(Type::Int32.size_in_bits(&tys), 32);
    assert_eq!(Type::Int64.align_in_byte(&tys), 8);
}

#[test]
fn compound_type_sizes() {
    let tys = Types {
        compounds: vec![
            CompoundType::Array(ArrayType { elem_ty: Type::Int32, len: 4 }),
            CompoundType::Struct(StructType { size: 12, align: 4 }),
            CompoundType::Array(ArrayType { elem_ty: Type::Array(0), len: 2 }),
        ],
    };
    assert_eq!(Type::Array(0).size_in_byte(&tys), 16);
    assert_eq!(Type::Array(0).align_in_byte(&tys), 4);
    // an array past the alignment cap is clamped to it
    assert_eq!(Type::Array(2).align_in_byte(&tys), 16);
    assert_eq!(Type::Struct(1).size_in_byte(&tys), 12);
    assert_eq!(Type::Struct(1).align_in_byte(&tys), 4);
    assert_eq!(Type::Array(2).size_in_byte(&tys), 32);
    assert_eq!(Type::Pointer(0).size_in_byte(&tys), 8);
    let small = Types {
        compounds: vec![CompoundType::Array(ArrayType { elem_ty: Type::Int32, len: 2 })],
    };
    assert_eq!(Type::Array(0).align_in_byte(&small), 4);
}

#[test]
fn frame_layout_two_locals() {
    // locals of 4 and 8 bytes with the 8-byte saved-register reservation:
    // 8 + 4 + 8 = 20, rounded up to 32; offsets -28 and -36.
    let tys = Types::new();
    let mut m = one_block_module(vec![
        inst(Opcode::Alloca, vec![Operand::Type(Type::Int32)], Type::Pointer(0)),
        inst(Opcode::Alloca, vec![Operand::Type(Type::Int64)], Type::Pointer(0)),
        inst(Opcode::Ret, vec![Operand::Value(Value::Imm32(0))], Type::Void),
    ]);
    let mm = standard_conversion_into_machine_module(&mut m).unwrap();
    let f = &mm.functions[0];
    assert_eq!(f.local_mgr.locals.len(), 2);
    let fo = FrameObjectsInfo::new(&tys, f);
    assert_eq!(fo.total_size, 32);
    assert_eq!(fo.total_size % 16, 0);
    assert_eq!(fo.offset(FrameIndexKind::Local(0)), Some(-28));
    assert_eq!(fo.offset(FrameIndexKind::Local(1)), Some(-36));
    assert_eq!(fo.offset(FrameIndexKind::Local(2)), None);
    assert_eq!(fo.offset(FrameIndexKind::Arg(0)), None);
    assert_eq!(fo.total_size(), 32);
}

#[test]
fn asmer_minimum() {
    // entry: ret (i32 42) — one return-class instruction carrying the
    // immediate 42, no values defined, and the frame collapses to the
    // saved-register reservation rounded to 16.
    let mut m = one_block_module(vec![
        inst(Opcode::Ret, vec![Operand::Value(Value::Imm32(42))], Type::Void),
    ]);
    let mm = standard_conversion_into_machine_module(&mut m).unwrap();
    assert_eq!(mm.name, "cilk");
    let f = &mm.functions[0];
    assert_eq!(f.basic_blocks.len(), 1);
    let bb = &f.basic_blocks[0];
    assert_eq!(bb.iseq.len(), 1);
    let ret = &f.instr_arena[bb.iseq[0]];
    assert_eq!(ret.opcode, MachineOpcode::Ret);
    assert_eq!(ret.operands, vec![MachineOperand::Imm(42)]);
    assert_eq!(bb.liveness.def.len(), 0);
    assert_eq!(bb.liveness.live_in.len(), 0);
    assert_eq!(bb.liveness.live_out.len(), 0);
    let fo = FrameObjectsInfo::new(&m.types, f);
    assert_eq!(fo.total_size, 16);
}

#[test]
fn asmer_local() {
    // entry: i = alloca i32; store (i32 42), (%i); li = load (%i); ret (%li)
    let mut m = one_block_module(vec![
        inst(Opcode::Alloca, vec![Operand::Type(Type::Int32)], Type::Pointer(0)),
        inst(
            Opcode::Store,
            vec![
                Operand::Value(Value::Instruction(0)),
                Operand::Value(Value::Imm32(42)),
            ],
            Type::Void,
        ),
        inst(Opcode::Load, vec![Operand::Value(Value::Instruction(0))], Type::Int32),
        inst(Opcode::Ret, vec![Operand::Value(Value::Instruction(2))], Type::Void),
    ]);
    let mm = standard_conversion_into_machine_module(&mut m).unwrap();
    let f = &mm.functions[0];
    assert_eq!(f.local_mgr.locals.len(), 1);
    assert_eq!(f.local_mgr.locals[0], FrameIndexInfo::new(Type::Int32, FrameIndexKind::Local(0)));
    let bb = &f.basic_blocks[0];
    assert_eq!(bb.iseq.len(), 3);
    let store = &f.instr_arena[bb.iseq[0]];
    let load = &f.instr_arena[bb.iseq[1]];
    let ret = &f.instr_arena[bb.iseq[2]];
    assert_eq!(store.opcode, MachineOpcode::MOVmi32);
    assert_eq!(load.opcode, MachineOpcode::MOVrm32);
    assert_eq!(ret.opcode, MachineOpcode::Ret);
    // store and load address the identical frame object, so layout resolves
    // them to the identical offset
    let fo = FrameObjectsInfo::new(&m.types, f);
    assert_eq!(fo.total_size, 16);
    let store_fi = match store.operands[0] {
        MachineOperand::FrameIndex(fi) => fi,
        ref other => panic!("store operand: {:?}", other),
    };
    let load_fi = match load.operands[0] {
        MachineOperand::FrameIndex(fi) => fi,
        ref other => panic!("load operand: {:?}", other),
    };
    assert_eq!(store_fi, load_fi);
    assert_eq!(fo.offset(store_fi.idx), Some(-12));
    assert_eq!(fo.offset(load_fi.idx), fo.offset(store_fi.idx));
    assert_eq!(store.operands[1], MachineOperand::Imm(42));
    // the return consumes the loaded value, which is defined in this block
    // and live from its definition to that use
    assert_eq!(ret.operands, vec![MachineOperand::Instr(bb.iseq[1])]);
    assert!(bb.liveness.def.contains(bb.iseq[1]));
    assert!(!bb.liveness.live_in.contains(bb.iseq[1]));
    assert!(validate_frame_index(f, &fo).is_ok());
    // virtual registers count up from one in traversal order
    assert_eq!(store.vreg, 1);
    assert_eq!(load.vreg, 2);
    assert_eq!(ret.vreg, 3);
}

fn two_block_module() -> Module {
    // b0: c = add (i32 1), (i32 2)   (falls through to b1)
    // b1: ret (%c)
    let mut m = Module::new("cilk".to_string());
    m.functions.push(Function {
        name: "test".to_string(),
        basic_blocks: vec![
            block(vec![0], vec![], vec![1]),
            block(vec![1], vec![0], vec![]),
        ],
        inst_table: vec![
            inst(
                Opcode::Add,
                vec![
                    Operand::Value(Value::Imm32(1)),
                    Operand::Value(Value::Imm32(2)),
                ],
                Type::Int32,
            ),
            inst(Opcode::Ret, vec![Operand::Value(Value::Instruction(0))], Type::Void),
        ],
        ret_ty: Type::Int32,
    });
    m
}

#[test]
fn ir_liveness_crosses_blocks() {
    let mut m = two_block_module();
    let mut an = IRLivenessAnalyzer::new();
    an.analyze(&mut m);
    let f = &m.functions[0];
    assert!(f.basic_blocks[0].liveness.def.contains(0));
    assert!(f.basic_blocks[0].liveness.live_out.contains(0));
    assert!(f.basic_blocks[1].liveness.live_in.contains(0));
    // def and live_in stay disjoint in every block
    assert!(!f.basic_blocks[0].liveness.live_in.contains(0));
}

#[test]
fn ir_liveness_idempotent() {
    let mut m = two_block_module();
    let mut an = IRLivenessAnalyzer::new();
    an.analyze(&mut m);
    let in0 = m.functions[0].basic_blocks[0].liveness.live_in.duplicate();
    let out0 = m.functions[0].basic_blocks[0].liveness.live_out.duplicate();
    let in1 = m.functions[0].basic_blocks[1].liveness.live_in.duplicate();
    let out1 = m.functions[0].basic_blocks[1].liveness.live_out.duplicate();
    // a second run rebuilds the sets from scratch and must reproduce them
    an.analyze(&mut m);
    let f = &m.functions[0];
    assert!(f.basic_blocks[0].liveness.live_in.set_eq(&in0));
    assert!(f.basic_blocks[0].liveness.live_out.set_eq(&out0));
    assert!(f.basic_blocks[1].liveness.live_in.set_eq(&in1));
    assert!(f.basic_blocks[1].liveness.live_out.set_eq(&out1));
}

#[test]
fn phi_attributes_liveness_to_named_predecessor() {
    // b0: a = add 1, 0      b1: c = add 2, 0
    //        \                 /
    //         b2: p = phi [a, b0], [c, b1]; ret (%p)
    let mut m = Module::new("cilk".to_string());
    m.functions.push(Function {
        name: "test".to_string(),
        basic_blocks: vec![
            block(vec![0], vec![], vec![2]),
            block(vec![1], vec![], vec![2]),
            block(vec![2, 3], vec![0, 1], vec![]),
        ],
        inst_table: vec![
            inst(
                Opcode::Add,
                vec![
                    Operand::Value(Value::Imm32(1)),
                    Operand::Value(Value::Imm32(0)),
                ],
                Type::Int32,
            ),
            inst(
                Opcode::Add,
                vec![
                    Operand::Value(Value::Imm32(2)),
                    Operand::Value(Value::Imm32(0)),
                ],
                Type::Int32,
            ),
            inst(
                Opcode::Phi,
                vec![
                    Operand::Value(Value::Instruction(0)),
                    Operand::BasicBlock(0),
                    Operand::Value(Value::Instruction(1)),
                    Operand::BasicBlock(1),
                ],
                Type::Int32,
            ),
            inst(Opcode::Ret, vec![Operand::Value(Value::Instruction(2))], Type::Void),
        ],
        ret_ty: Type::Int32,
    });
    let mut an = IRLivenessAnalyzer::new();
    an.analyze(&mut m);
    let f = &m.functions[0];
    // each incoming value is live out of its own named predecessor...
    assert!(f.basic_blocks[0].liveness.live_out.contains(0));
    assert!(f.basic_blocks[1].liveness.live_out.contains(1));
    // ...and does not propagate into the other predecessor
    assert!(!f.basic_blocks[1].liveness.live_out.contains(0));
    assert!(!f.basic_blocks[0].liveness.live_out.contains(1));
}

#[test]
fn selection_keeps_sharing() {
    // x = add 1, 2;  y = add (%x), 3;  z = add (%x), 4 — the two users of
    // x must reference one identical selected node
    let m = one_block_module(vec![
        inst(
            Opcode::Add,
            vec![
                Operand::Value(Value::Imm32(1)),
                Operand::Value(Value::Imm32(2)),
            ],
            Type::Int32,
        ),
        inst(
            Opcode::Add,
            vec![
                Operand::Value(Value::Instruction(0)),
                Operand::Value(Value::Imm32(3)),
            ],
            Type::Int32,
        ),
        inst(
            Opcode::Add,
            vec![
                Operand::Value(Value::Instruction(0)),
                Operand::Value(Value::Imm32(4)),
            ],
            Type::Int32,
        ),
        inst(Opcode::Ret, vec![Operand::Value(Value::Instruction(2))], Type::Void),
    ]);
    let (mut df, node_map) = convert_function(&m.functions[0]).unwrap();
    let x = node_map[0].unwrap();
    let y = node_map[1].unwrap();
    let z = node_map[2].unwrap();
    assert_eq!(df.arena[y].operands[0], x);
    assert_eq!(df.arena[z].operands[0], x);
    let mut sel = MISelector::new();
    sel.run_on_function(&mut df).unwrap();
    let sy = sel.selected.get(y).unwrap();
    let sz = sel.selected.get(z).unwrap();
    assert_eq!(df.arena[sy].operands[0], df.arena[sz].operands[0]);
}

#[test]
fn constants_are_deduplicated_per_block() {
    // both uses of the constant 7 must share one node; 8 gets its own
    let m = one_block_module(vec![
        inst(
            Opcode::Add,
            vec![
                Operand::Value(Value::Imm32(7)),
                Operand::Value(Value::Imm32(7)),
            ],
            Type::Int32,
        ),
        inst(
            Opcode::Add,
            vec![
                Operand::Value(Value::Instruction(0)),
                Operand::Value(Value::Imm32(8)),
            ],
            Type::Int32,
        ),
        inst(Opcode::Ret, vec![Operand::Value(Value::Instruction(1))], Type::Void),
    ]);
    let (df, node_map) = convert_function(&m.functions[0]).unwrap();
    let first = node_map[0].unwrap();
    let second = node_map[1].unwrap();
    assert_eq!(df.arena[first].operands[0], df.arena[first].operands[1]);
    assert_ne!(df.arena[first].operands[0], df.arena[second].operands[1]);
}

#[test]
fn unsupported_construct_is_refused() {
    let mut m = one_block_module(vec![
        inst(Opcode::CondBr, vec![Operand::Value(Value::Imm32(1))], Type::Void),
    ]);
    assert!(matches!(
        standard_conversion_into_machine_module(&mut m),
        Err(CodegenError::UnsupportedIRConstruct)
    ));
}

#[test]
fn use_before_definition_is_malformed() {
    let mut m = one_block_module(vec![
        inst(Opcode::Ret, vec![Operand::Value(Value::Instruction(1))], Type::Void),
        inst(
            Opcode::Add,
            vec![
                Operand::Value(Value::Imm32(1)),
                Operand::Value(Value::Imm32(2)),
            ],
            Type::Int32,
        ),
    ]);
    assert!(matches!(
        standard_conversion_into_machine_module(&mut m),
        Err(CodegenError::MalformedControlFlow)
    ));
}

#[test]
fn unmatched_load_shape_fails_selection() {
    // loading through a plain i32 value matches no pattern row
    let mut m = one_block_module(vec![
        inst(
            Opcode::Add,
            vec![
                Operand::Value(Value::Imm32(1)),
                Operand::Value(Value::Imm32(2)),
            ],
            Type::Int32,
        ),
        inst(Opcode::Load, vec![Operand::Value(Value::Instruction(0))], Type::Int32),
        inst(Opcode::Ret, vec![Operand::Value(Value::Instruction(1))], Type::Void),
    ]);
    assert!(matches!(
        standard_conversion_into_machine_module(&mut m),
        Err(CodegenError::NoSelectionPatternMatched)
    ));
}

#[test]
fn unresolved_frame_index_is_reported() {
    // layout for an empty set of locals resolves nothing, so a leftover
    // frame-index operand is caught
    let mut m = one_block_module(vec![
        inst(Opcode::Alloca, vec![Operand::Type(Type::Int32)], Type::Pointer(0)),
        inst(
            Opcode::Store,
            vec![
                Operand::Value(Value::Instruction(0)),
                Operand::Value(Value::Imm32(7)),
            ],
            Type::Void,
        ),
        inst(Opcode::Ret, vec![Operand::Value(Value::Imm32(0))], Type::Void),
    ]);
    let mm = standard_conversion_into_machine_module(&mut m).unwrap();
    let f = &mm.functions[0];
    let tys = Types::new();
    let good = FrameObjectsInfo::new(&tys, f);
    assert!(validate_frame_index(f, &good).is_ok());
    let empty_fo = {
        let g = cilk::machine::MachineFunction {
            name: "empty".to_string(),
            basic_blocks: vec![],
            instr_arena: vec![],
            local_mgr: LocalVariables::new(),
            ret_ty: Type::Void,
        };
        FrameObjectsInfo::new(&tys, &g)
    };
    assert_eq!(
        validate_frame_index(f, &empty_fo),
        Err(CodegenError::UnresolvedFrameIndex)
    );
}

#[test]
fn machine_liveness_crosses_blocks() {
    // the value computed in the first block is consumed by the return in
    // the second: it is live out of the first and live into the second,
    // and virtual registers keep counting across the block boundary
    // b0: i = alloca i32; store 42, (%i); a = load (%i); c = add (%a), 1
    // b1: ret (%c)
    let mut m = Module::new("cilk".to_string());
    m.functions.push(Function {
        name: "test".to_string(),
        basic_blocks: vec![
            block(vec![0, 1, 2, 3], vec![], vec![1]),
            block(vec![4], vec![0], vec![]),
        ],
        inst_table: vec![
            inst(Opcode::Alloca, vec![Operand::Type(Type::Int32)], Type::Pointer(0)),
            inst(
                Opcode::Store,
                vec![
                    Operand::Value(Value::Instruction(0)),
                    Operand::Value(Value::Imm32(42)),
                ],
                Type::Void,
            ),
            inst(Opcode::Load, vec![Operand::Value(Value::Instruction(0))], Type::Int32),
            inst(
                Opcode::Add,
                vec![
                    Operand::Value(Value::Instruction(2)),
                    Operand::Value(Value::Imm32(1)),
                ],
                Type::Int32,
            ),
            inst(Opcode::Ret, vec![Operand::Value(Value::Instruction(3))], Type::Void),
        ],
        ret_ty: Type::Int32,
    });
    let mm = standard_conversion_into_machine_module(&mut m).unwrap();
    let f = &mm.functions[0];
    assert_eq!(f.basic_blocks.len(), 2);
    assert_eq!(f.basic_blocks[0].iseq.len(), 3);
    let add_id = f.basic_blocks[0].iseq[2];
    let ret_id = f.basic_blocks[1].iseq[0];
    assert_eq!(f.instr_arena[add_id].opcode, MachineOpcode::ADDri32);
    assert_eq!(f.instr_arena[ret_id].opcode, MachineOpcode::Ret);
    assert_eq!(f.instr_arena[ret_id].operands, vec![MachineOperand::Instr(add_id)]);
    assert!(f.basic_blocks[0].liveness.def.contains(add_id));
    assert!(f.basic_blocks[0].liveness.live_out.contains(add_id));
    assert!(f.basic_blocks[1].liveness.live_in.contains(add_id));
    assert!(!f.basic_blocks[1].liveness.def.contains(add_id));
    assert_eq!(f.instr_arena[f.basic_blocks[0].iseq[0]].vreg, 1);
    assert_eq!(f.instr_arena[add_id].vreg, 3);
    assert_eq!(f.instr_arena[ret_id].vreg, 4);
}

#[test]
fn call_def_follows_the_calls_own_type() {
    // a call returning i32 defines a value even inside a void function; a
    // call returning void defines none
    let mut m = Module::new("cilk".to_string());
    m.functions.push(Function {
        name: "test".to_string(),
        basic_blocks: vec![block(vec![0, 1, 2], vec![], vec![])],
        inst_table: vec![
            inst(Opcode::Call, vec![], Type::Int32),
            inst(Opcode::Call, vec![], Type::Void),
            inst(Opcode::Ret, vec![Operand::Value(Value::Imm32(0))], Type::Void),
        ],
        ret_ty: Type::Void,
    });
    let mut an = IRLivenessAnalyzer::new();
    an.analyze(&mut m);
    let f = &m.functions[0];
    assert!(f.basic_blocks[0].liveness.def.contains(0));
    assert!(!f.basic_blocks[0].liveness.def.contains(1));
}

#[test]
fn new_local_and_arg_constructors() {
    assert_eq!(FrameIndexKind::new_arg(3), FrameIndexKind::Arg(3));
    assert_eq!(FrameIndexKind::new_local(5), FrameIndexKind::Local(5));
    let mut lv = LocalVariables::new();
    let a = lv.allocate(&Type::Int32);
    let b = lv.allocate(&Type::Int64);
    assert_eq!(a.idx, FrameIndexKind::Local(0));
    assert_eq!(b.idx, FrameIndexKind::Local(1));
    assert_eq!(lv.cur_idx, 2);
    assert_eq!(lv.locals.len(), 2);
}
