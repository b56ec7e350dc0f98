use crate::collections::IdSet;
use crate::frame_object::{FrameIndexInfo, LocalVariables};
use crate::types::Type;
use vstd::prelude::*;

verus! {

/// A target machine opcode. The `rr`/`ri` suffixes name the operand shapes
/// (register/register, register/immediate); `m` is a frame-relative memory
/// operand and `p` a pointer held in a register.
#[derive(Clone, Copy, Debug, PartialEq, Eq, Hash, Structural)]
pub enum MachineOpcode {
    ADDrr32,
    ADDri32,
    ADDr64i32,
    SUBrr32,
    SUBri32,
    IMULrr32,
    IMULrri32,
    IMULrr64i32,
    MOVrm32,
    MOVrm64,
    MOVrp32,
    MOVmr32,
    MOVmi32,
    MOVpi32,
    MOVpr32,
    Copy,
    Call,
    Ret,
}

impl MachineOpcode {
    /// Whether an instruction with this opcode produces a value that later
    /// instructions can name: arithmetic and loads do, stores, copies and
    /// returns do not. Calls are decided by their return type, not here.
    pub open spec fn spec_returns_value(self) -> bool {
        match self {
            MachineOpcode::ADDrr32 => true,
            MachineOpcode::ADDri32 => true,
            MachineOpcode::ADDr64i32 => true,
            MachineOpcode::SUBrr32 => true,
            MachineOpcode::SUBri32 => true,
            MachineOpcode::IMULrr32 => true,
            MachineOpcode::IMULrri32 => true,
            MachineOpcode::IMULrr64i32 => true,
            MachineOpcode::MOVrm32 => true,
            MachineOpcode::MOVrm64 => true,
            MachineOpcode::MOVrp32 => true,
            _ => false,
        }
    }

    pub fn returns_value(&self) -> (r: bool)
        ensures
            r == self.spec_returns_value(),
    {
        match self {
            MachineOpcode::ADDrr32 => true,
            MachineOpcode::ADDri32 => true,
            MachineOpcode::ADDr64i32 => true,
            MachineOpcode::SUBrr32 => true,
            MachineOpcode::SUBri32 => true,
            MachineOpcode::IMULrr32 => true,
            MachineOpcode::IMULrri32 => true,
            MachineOpcode::IMULrr64i32 => true,
            MachineOpcode::MOVrm32 => true,
            MachineOpcode::MOVrm64 => true,
            MachineOpcode::MOVrp32 => true,
            _ => false,
        }
    }
}

/// An operand of a machine instruction. Before register allocation a value
/// operand names the arena id of the instruction that defines it.
#[derive(Clone, Copy, Debug, PartialEq, Eq, Structural)]
pub enum MachineOperand {
    Instr(usize),
    Imm(i32),
    FrameIndex(FrameIndexInfo),
}

/// One machine instruction, arena-owned by its function. `vreg` is the
/// virtual register number given by liveness numbering, 0 until then.
#[derive(Debug)]
pub struct MachineInstr {
    pub opcode: MachineOpcode,
    pub operands: Vec<MachineOperand>,
    pub ty: Option<Type>,
    pub vreg: usize,
}

/// The per-block liveness record: ids defined in the block, live on entry,
/// and live on exit.
#[derive(Debug)]
pub struct LivenessInfo {
    pub def: IdSet,
    pub live_in: IdSet,
    pub live_out: IdSet,
}

impl LivenessInfo {
    pub fn new() -> (r: Self)
        ensures
            r.def@ == Set::<usize>::empty(),
            r.live_in@ == Set::<usize>::empty(),
            r.live_out@ == Set::<usize>::empty(),
    {
        LivenessInfo { def: IdSet::new(), live_in: IdSet::new(), live_out: IdSet::new() }
    }
}

/// A machine basic block: its place in the control-flow graph, its ordered
/// instruction ids, and its liveness record.
#[derive(Debug)]
pub struct MachineBasicBlock {
    pub pred: Vec<usize>,
    pub succ: Vec<usize>,
    pub iseq: Vec<usize>,
    pub liveness: LivenessInfo,
}

impl MachineBasicBlock {
    pub fn new() -> (r: Self)
        ensures
            r.pred@ =~= Seq::<usize>::empty(),
            r.succ@ =~= Seq::<usize>::empty(),
            r.iseq@ =~= Seq::<usize>::empty(),
            r.liveness.def@ == Set::<usize>::empty(),
            r.liveness.live_in@ == Set::<usize>::empty(),
            r.liveness.live_out@ == Set::<usize>::empty(),
    {
        MachineBasicBlock {
            pred: Vec::new(),
            succ: Vec::new(),
            iseq: Vec::new(),
            liveness: LivenessInfo::new(),
        }
    }
}

/// A machine function: blocks in layout order, the instruction arena they
/// index into, the local stack objects, and the return type.
#[derive(Debug)]
pub struct MachineFunction {
    pub name: String,
    pub basic_blocks: Vec<MachineBasicBlock>,
    pub instr_arena: Vec<MachineInstr>,
    pub local_mgr: LocalVariables,
    pub ret_ty: Type,
}

impl MachineFunction {
    /// Block and instruction references stay inside their arenas.
    pub open spec fn wf(&self) -> bool {
        &&& forall|b: int|
            0 <= b < self.basic_blocks@.len() ==> (#[trigger] self.basic_blocks@[b]).wf_in(
                self.basic_blocks@.len() as int,
                self.instr_arena@.len() as int,
            )
        &&& forall|i: int|
            0 <= i < self.instr_arena@.len() ==> (#[trigger] self.instr_arena@[i]).wf_in(
                self.instr_arena@.len() as int,
            )
    }
}

impl MachineBasicBlock {
    pub open spec fn wf_in(&self, n_blocks: int, n_instrs: int) -> bool {
        &&& forall|k: int| 0 <= k < self.pred@.len() ==> #[trigger] self.pred@[k] < n_blocks
        &&& forall|k: int| 0 <= k < self.succ@.len() ==> #[trigger] self.succ@[k] < n_blocks
        &&& forall|k: int| 0 <= k < self.iseq@.len() ==> #[trigger] self.iseq@[k] < n_instrs
    }
}

impl MachineInstr {
    pub open spec fn wf_in(&self, n_instrs: int) -> bool {
        forall|k: int|
            0 <= k < self.operands@.len() ==> match #[trigger] self.operands@[k] {
                MachineOperand::Instr(id) => id < n_instrs,
                _ => true,
            }
    }
}

/// A module of machine functions, the unit the pipeline hands on.
#[derive(Debug)]
pub struct MachineModule {
    pub name: String,
    pub functions: Vec<MachineFunction>,
}

} // verus!
