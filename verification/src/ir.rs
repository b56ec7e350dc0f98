use crate::machine::LivenessInfo;
use crate::types::{Type, Types};
use vstd::prelude::*;

verus! {

/// An IR instruction opcode.
#[derive(Clone, Copy, Debug, PartialEq, Eq, Structural)]
pub enum Opcode {
    Alloca,
    Load,
    Store,
    Add,
    Sub,
    Mul,
    ICmp,
    Br,
    CondBr,
    Phi,
    Call,
    Ret,
}

impl Opcode {
    /// Whether an instruction with this opcode yields a value of its own.
    /// Calls are decided by the function's return type, not here.
    pub open spec fn spec_returns_value(self) -> bool {
        match self {
            Opcode::Alloca => true,
            Opcode::Load => true,
            Opcode::Add => true,
            Opcode::Sub => true,
            Opcode::Mul => true,
            Opcode::ICmp => true,
            Opcode::Phi => true,
            _ => false,
        }
    }

    pub fn returns_value(&self) -> (r: bool)
        ensures
            r == self.spec_returns_value(),
    {
        match self {
            Opcode::Alloca => true,
            Opcode::Load => true,
            Opcode::Add => true,
            Opcode::Sub => true,
            Opcode::Mul => true,
            Opcode::ICmp => true,
            Opcode::Phi => true,
            _ => false,
        }
    }
}

/// An integer comparison kind.
#[derive(Clone, Copy, Debug, PartialEq, Eq, Structural)]
pub enum ICmpKind {
    Eq,
    Ne,
    Lt,
    Le,
    Gt,
    Ge,
}

/// A floating comparison kind (carried through the IR, never evaluated
/// here).
#[derive(Clone, Copy, Debug, PartialEq, Eq, Structural)]
pub enum FCmpKind {
    UEq,
    UNe,
    ULt,
    ULe,
}

/// An IR value: a function argument, an immediate, or the result of the
/// instruction with the given arena id.
#[derive(Clone, Copy, Debug, PartialEq, Eq, Structural)]
pub enum Value {
    Argument(usize),
    Imm32(i32),
    Instruction(usize),
}

impl Value {
    pub open spec fn spec_get_inst_id(self) -> Option<usize> {
        match self {
            Value::Instruction(id) => Some(id),
            _ => None,
        }
    }

    pub fn get_inst_id(&self) -> (r: Option<usize>)
        ensures
            r == self.spec_get_inst_id(),
    {
        match self {
            Value::Instruction(id) => Some(*id),
            _ => None,
        }
    }
}

/// An instruction operand: a value, or one of the non-value references an
/// opcode may carry (a block, a type, a comparison kind).
#[derive(Clone, Copy, Debug, PartialEq, Eq, Structural)]
pub enum Operand {
    Value(Value),
    BasicBlock(usize),
    Type(Type),
    ICmpKind(ICmpKind),
    FCmpKind(FCmpKind),
}

/// One IR instruction, arena-owned by its function.
#[derive(Clone, Debug)]
pub struct Instruction {
    pub opcode: Opcode,
    pub operands: Vec<Operand>,
    pub ty: Type,
}

/// An IR basic block: its instruction order (as `Value::Instruction`
/// entries), its place in the control-flow graph, and its liveness record.
#[derive(Debug)]
pub struct BasicBlock {
    pub iseq: Vec<Value>,
    pub pred: Vec<usize>,
    pub succ: Vec<usize>,
    pub liveness: LivenessInfo,
}

impl BasicBlock {
    pub fn new() -> (r: Self)
        ensures
            r.iseq@ =~= Seq::<Value>::empty(),
            r.pred@ =~= Seq::<usize>::empty(),
            r.succ@ =~= Seq::<usize>::empty(),
            r.liveness.def@ == Set::<usize>::empty(),
            r.liveness.live_in@ == Set::<usize>::empty(),
            r.liveness.live_out@ == Set::<usize>::empty(),
    {
        BasicBlock {
            iseq: Vec::new(),
            pred: Vec::new(),
            succ: Vec::new(),
            liveness: LivenessInfo::new(),
        }
    }
}

/// An IR function.
#[derive(Debug)]
pub struct Function {
    pub name: String,
    pub basic_blocks: Vec<BasicBlock>,
    pub inst_table: Vec<Instruction>,
    pub ret_ty: Type,
}

impl Function {
    pub fn get_return_type(&self) -> (r: Type)
        ensures
            r == self.ret_ty,
    {
        self.ret_ty
    }

    /// Arena references stay in bounds and phi operand lists pair each
    /// incoming value with the block it arrives from.
    pub open spec fn wf(&self) -> bool {
        &&& forall|b: int|
            0 <= b < self.basic_blocks@.len() ==> (#[trigger] self.basic_blocks@[b]).wf_in(
                self.basic_blocks@.len() as int,
                self.inst_table@.len() as int,
            )
        &&& forall|i: int|
            0 <= i < self.inst_table@.len() ==> (#[trigger] self.inst_table@[i]).wf_in(
                self.basic_blocks@.len() as int,
                self.inst_table@.len() as int,
            )
    }
}

impl BasicBlock {
    pub open spec fn wf_in(&self, n_blocks: int, n_instrs: int) -> bool {
        &&& forall|k: int|
            0 <= k < self.iseq@.len() ==> match #[trigger] self.iseq@[k] {
                Value::Instruction(id) => id < n_instrs,
                _ => false,
            }
        &&& forall|k: int| 0 <= k < self.pred@.len() ==> #[trigger] self.pred@[k] < n_blocks
        &&& forall|k: int| 0 <= k < self.succ@.len() ==> #[trigger] self.succ@[k] < n_blocks
    }
}

impl Instruction {
    /// Operand references are in bounds; a phi holds value/block pairs.
    pub open spec fn wf_in(&self, n_blocks: int, n_instrs: int) -> bool {
        &&& forall|k: int|
            0 <= k < self.operands@.len() ==> match #[trigger] self.operands@[k] {
                Operand::Value(Value::Instruction(id)) => id < n_instrs,
                Operand::BasicBlock(b) => b < n_blocks,
                _ => true,
            }
        &&& self.opcode == Opcode::Phi ==> {
            &&& self.operands@.len() % 2 == 0
            &&& forall|k: int|
                0 <= k < self.operands@.len() && k % 2 == 0 ==> (#[trigger] self.operands@[k])
                    is Value && self.operands@[k + 1] is BasicBlock
        }
    }
}

/// An IR module: its functions and the type arena they share.
#[derive(Debug)]
pub struct Module {
    pub name: String,
    pub functions: Vec<Function>,
    pub types: Types,
}

impl Module {
    pub fn new(name: String) -> (r: Self)
        ensures
            r.name == name,
            r.functions@ =~= Seq::<Function>::empty(),
            r.types.wf(),
    {
        Module { name, functions: Vec::new(), types: Types::new() }
    }
}

} // verus!
