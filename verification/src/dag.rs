use crate::frame_object::{FrameIndexInfo, LocalVariables};
use crate::ir::{Function, Instruction, Opcode, Operand, Value};
use crate::pipeline::CodegenError;
use crate::types::{Type, Types};
use vstd::prelude::*;

verus! {

/// An architecture-neutral operation a DAG node can carry before selection.
#[derive(Clone, Copy, Debug, PartialEq, Eq, Structural)]
pub enum IRNodeKind {
    Add,
    Sub,
    Mul,
    Load,
    Store,
    Ret,
}

/// A target machine operation a DAG node carries after selection.
#[derive(Clone, Copy, Debug, PartialEq, Eq, Structural)]
pub enum MINodeKind {
    ADDrr32,
    ADDri32,
    ADDr64i32,
    SUBrr32,
    SUBri32,
    IMULrr32,
    IMULrri32,
    IMULrr64i32,
    MOVrm32,
    MOVrm64,
    MOVrp32,
    MOVmr32,
    MOVmi32,
    MOVpi32,
    MOVpr32,
}

/// The tag of a DAG node: an unselected IR operation, a selected machine
/// operation, or a leaf (a constant, a frame index, a register).
#[derive(Clone, Copy, Debug, PartialEq, Eq, Structural)]
pub enum NodeKind {
    IR(IRNodeKind),
    MI(MINodeKind),
    Constant(i32),
    FrameIndex(FrameIndexInfo),
    Register(usize),
}

/// How a memory operand addresses its target: frame-relative, through a
/// register, or as a plain address.
#[derive(Clone, Copy, Debug, PartialEq, Eq, Structural)]
pub enum MemNodeKind {
    RegFi,
    Reg,
    Address,
}

impl NodeKind {
    pub open spec fn spec_is_operation(self) -> bool {
        self is IR || self is MI
    }

    pub open spec fn spec_is_constant(self) -> bool {
        self is Constant
    }

    pub open spec fn spec_is_frame_index(self) -> bool {
        self is FrameIndex
    }

    /// Operations and register leaves end up carrying their value in a
    /// register; constants and frame indices do not.
    pub open spec fn spec_is_maybe_register(self) -> bool {
        self.spec_is_operation() || self is Register
    }
}

/// One node of a block's operation graph. Operands are handles of earlier
/// arena entries, so the graph cannot hold a cycle.
#[derive(Clone, Debug)]
pub struct DAGNode {
    pub kind: NodeKind,
    pub operands: Vec<usize>,
    pub ty: Type,
}

impl DAGNode {
    pub fn new(kind: NodeKind, operands: Vec<usize>, ty: Type) -> (r: Self)
        ensures
            r.kind == kind,
            r.operands == operands,
            r.ty == ty,
    {
        DAGNode { kind, operands, ty }
    }

    pub fn is_operation(&self) -> (r: bool)
        ensures
            r == self.kind.spec_is_operation(),
    {
        match self.kind {
            NodeKind::IR(_) => true,
            NodeKind::MI(_) => true,
            _ => false,
        }
    }

    pub fn is_constant(&self) -> (r: bool)
        ensures
            r == self.kind.spec_is_constant(),
    {
        match self.kind {
            NodeKind::Constant(_) => true,
            _ => false,
        }
    }

    pub fn is_frame_index(&self) -> (r: bool)
        ensures
            r == self.kind.spec_is_frame_index(),
    {
        match self.kind {
            NodeKind::FrameIndex(_) => true,
            _ => false,
        }
    }

    pub fn is_maybe_register(&self) -> (r: bool)
        ensures
            r == self.kind.spec_is_maybe_register(),
    {
        match self.kind {
            NodeKind::IR(_) => true,
            NodeKind::MI(_) => true,
            NodeKind::Register(_) => true,
            _ => false,
        }
    }
}

/// A DAG basic block: the handle of its first operation, its operations in
/// emission order, and its place in the control-flow graph.
#[derive(Clone, Debug)]
pub struct DAGBasicBlock {
    pub entry: Option<usize>,
    pub iseq: Vec<usize>,
    pub pred: Vec<usize>,
    pub succ: Vec<usize>,
}

/// A function's operation graphs: one arena of nodes shared by its blocks.
#[derive(Debug)]
pub struct DAGFunction {
    pub name: String,
    pub arena: Vec<DAGNode>,
    pub dag_basic_blocks: Vec<DAGBasicBlock>,
    pub local_mgr: LocalVariables,
    pub ret_ty: Type,
}

/// A module of DAG functions.
#[derive(Debug)]
pub struct DAGModule {
    pub name: String,
    pub functions: Vec<DAGFunction>,
    pub types: Types,
}

impl DAGFunction {
    /// Every operand handle points strictly backwards in the arena, every
    /// listed node exists, a block's entry is its first listed node, and
    /// CFG edges stay in range.
    pub open spec fn wf(&self) -> bool {
        &&& forall|h: int, k: int|
            0 <= h < self.arena@.len() && 0 <= k < self.arena@[h].operands@.len() ==> (
            #[trigger] self.arena@[h].operands@[k]) < h
        &&& forall|b: int, k: int|
            0 <= b < self.dag_basic_blocks@.len() && 0 <= k
                < self.dag_basic_blocks@[b].iseq@.len() ==> (
            #[trigger] self.dag_basic_blocks@[b].iseq@[k]) < self.arena@.len()
        &&& forall|b: int|
            0 <= b < self.dag_basic_blocks@.len() ==> (#[trigger] self.dag_basic_blocks@[b]).entry
                == if self.dag_basic_blocks@[b].iseq@.len() > 0 {
                Some(self.dag_basic_blocks@[b].iseq@[0])
            } else {
                None::<usize>
            }
        &&& forall|b: int, k: int|
            0 <= b < self.dag_basic_blocks@.len() && 0 <= k
                < self.dag_basic_blocks@[b].pred@.len() ==> (
            #[trigger] self.dag_basic_blocks@[b].pred@[k]) < self.dag_basic_blocks@.len()
        &&& forall|b: int, k: int|
            0 <= b < self.dag_basic_blocks@.len() && 0 <= k
                < self.dag_basic_blocks@[b].succ@.len() ==> (
            #[trigger] self.dag_basic_blocks@[b].succ@[k]) < self.dag_basic_blocks@.len()
    }
}

/// The DAG node kind an IR opcode converts to, if the builder supports it.
/// `Alloca` is handled apart: it makes a frame object, not an operation.
pub open spec fn spec_node_kind_of(op: Opcode) -> Option<IRNodeKind> {
    match op {
        Opcode::Add => Some(IRNodeKind::Add),
        Opcode::Sub => Some(IRNodeKind::Sub),
        Opcode::Mul => Some(IRNodeKind::Mul),
        Opcode::Load => Some(IRNodeKind::Load),
        Opcode::Store => Some(IRNodeKind::Store),
        Opcode::Ret => Some(IRNodeKind::Ret),
        _ => None,
    }
}

/// Whether the builder accepts the opcode at all.
pub open spec fn spec_buildable(op: Opcode) -> bool {
    op == Opcode::Alloca || spec_node_kind_of(op) is Some
}

/// The DAG operand standing for one IR operand: a prior instruction's value
/// shares that instruction's node, an immediate is a constant node, and
/// everything else contributes no operand edge.
pub open spec fn operand_models(
    arena: Seq<DAGNode>,
    node_map: Seq<Option<usize>>,
    ir_op: Operand,
    dag_op: usize,
) -> bool {
    match ir_op {
        Operand::Value(Value::Instruction(id)) => node_map[id as int] == Some(dag_op),
        Operand::Value(Value::Imm32(v)) => dag_op < arena.len() && arena[dag_op as int].kind
            == NodeKind::Constant(v) && arena[dag_op as int].ty == crate::types::Type::Int32,
        _ => false,
    }
}

/// An IR operand that contributes a DAG operand edge.
pub open spec fn is_value_operand(ir_op: Operand) -> bool {
    ir_op matches Operand::Value(v) && (v is Instruction || v is Imm32)
}

/// The node standing for one instruction models it: same kind tag, same
/// type, and one operand edge per IR operand, in order.
pub open spec fn node_models_inst(
    arena: Seq<DAGNode>,
    node_map: Seq<Option<usize>>,
    inst: Instruction,
    n: usize,
) -> bool {
    &&& n < arena.len()
    &&& arena[n as int].kind == NodeKind::IR(spec_node_kind_of(inst.opcode).unwrap())
    &&& arena[n as int].ty == inst.ty
    &&& arena[n as int].operands@.len() == inst.operands@.len()
    &&& forall|k: int|
        0 <= k < inst.operands@.len() ==> operand_models(
            arena,
            node_map,
            #[trigger] inst.operands@[k],
            arena[n as int].operands@[k],
        )
}

} // verus!
