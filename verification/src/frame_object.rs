use crate::machine::MachineFunction;
use crate::spec_roundup;
use crate::types::{spec_size_in_byte, ty_valid, CompoundType, Type, Types};
use vstd::prelude::*;

verus! {

/// A symbolic stack slot: an incoming argument or a local, each numbered in
/// allocation order. It names a slot without committing to a byte offset.
#[derive(Clone, Copy, Debug, PartialEq, Eq, Hash, Structural)]
pub enum FrameIndexKind {
    Arg(usize),
    Local(usize),
}

impl FrameIndexKind {
    pub fn new_arg(idx: usize) -> (r: Self)
        ensures
            r == FrameIndexKind::Arg(idx),
    {
        FrameIndexKind::Arg(idx)
    }

    pub fn new_local(idx: usize) -> (r: Self)
        ensures
            r == FrameIndexKind::Local(idx),
    {
        FrameIndexKind::Local(idx)
    }
}

/// A frame index together with the type of the value stored there.
#[derive(Clone, Copy, Debug, PartialEq, Eq, Structural)]
pub struct FrameIndexInfo {
    pub ty: Type,
    pub idx: FrameIndexKind,
}

impl FrameIndexInfo {
    pub fn new(ty: Type, idx: FrameIndexKind) -> (r: Self)
        ensures
            r == (FrameIndexInfo { ty, idx }),
    {
        FrameIndexInfo { ty, idx }
    }
}

/// The local stack objects of one function, in allocation order.
#[derive(Clone, Debug)]
pub struct LocalVariables {
    pub locals: Vec<FrameIndexInfo>,
    pub cur_idx: usize,
}

impl LocalVariables {
    /// Slot `j` of the list is the local numbered `j`.
    pub open spec fn wf(&self) -> bool {
        &&& self.cur_idx == self.locals@.len()
        &&& forall|j: int|
            0 <= j < self.locals@.len() ==> (#[trigger] self.locals@[j]).idx
                == FrameIndexKind::Local(j as usize)
    }

    pub fn new() -> (r: Self)
        ensures
            r.locals@ =~= Seq::<FrameIndexInfo>::empty(),
            r.cur_idx == 0,
            r.wf(),
    {
        LocalVariables { locals: Vec::new(), cur_idx: 0 }
    }

    /// Reserves the next local slot for a value of type `ty`.
    pub fn allocate(&mut self, ty: &Type) -> (r: FrameIndexInfo)
        requires
            old(self).wf(),
            old(self).cur_idx < usize::MAX,
        ensures
            r == (FrameIndexInfo { ty: *ty, idx: FrameIndexKind::Local(old(self).cur_idx) }),
            final(self).locals@ == old(self).locals@.push(r),
            final(self).cur_idx == old(self).cur_idx + 1,
            final(self).wf(),
    {
        let info = FrameIndexInfo::new(*ty, FrameIndexKind::Local(self.cur_idx));
        self.cur_idx = self.cur_idx + 1;
        self.locals.push(info.clone());
        info
    }
}

/// A map from frame indices to their resolved byte offsets, backed by
/// `rustc_hash`'s `FxHashMap`.
#[derive(Debug)]
pub struct OffsetMap {
    map: rustc_hash::FxHashMap<FrameIndexKind, i32>,
}

impl View for OffsetMap {
    type V = Map<FrameIndexKind, i32>;

    closed spec fn view(&self) -> Map<FrameIndexKind, i32> {
        self.map@
    }
}

/// The empty offset map.
pub open spec fn empty_offset_map() -> Map<FrameIndexKind, i32> {
    Map::empty()
}

impl OffsetMap {
    /// Relies on `HashMap::default`: a freshly built map is empty.
    #[verifier::external_body]
    pub fn new() -> (r: Self)
        ensures
            r@ == empty_offset_map(),
    {
        OffsetMap { map: rustc_hash::FxHashMap::default() }
    }

    /// Relies on `HashMap::insert`: the key now maps to the value; other
    /// keys are untouched.
    #[verifier::external_body]
    pub fn insert(&mut self, k: FrameIndexKind, v: i32)
        ensures
            final(self)@ == old(self)@.insert(k, v),
    {
        self.map.insert(k, v);
    }

    /// Relies on `HashMap::get`.
    #[verifier::external_body]
    pub fn get(&self, k: FrameIndexKind) -> (r: Option<i32>)
        ensures
            match r {
                Some(v) => self@.contains_key(k) && self@[k] == v,
                None => !self@.contains_key(k),
            },
    {
        self.map.get(&k).copied()
    }
}

/// Bytes reserved at the top of every frame for one saved callee register.
pub const SAVED_REG_SZ: usize = 8;

/// A hard cap on the locals' total byte size, so that frame offsets stay
/// within a 32-bit signed range.
pub const FRAME_BYTES_CAP: usize = 0x2000_0000;

/// The summed byte sizes of the first `n` locals, in declaration order.
pub open spec fn locals_size_prefix(
    cs: Seq<CompoundType>,
    locals: Seq<FrameIndexInfo>,
    n: int,
) -> int
    decreases n,
{
    if n <= 0 {
        0
    } else {
        locals_size_prefix(cs, locals, n - 1) + spec_size_in_byte(cs, locals[n - 1].ty)
    }
}

pub proof fn lemma_prefix_monotone(
    cs: Seq<CompoundType>,
    locals: Seq<FrameIndexInfo>,
    m: int,
    n: int,
)
    requires
        0 <= m <= n,
    ensures
        locals_size_prefix(cs, locals, m) <= locals_size_prefix(cs, locals, n),
    decreases n,
{
    if m < n {
        lemma_prefix_monotone(cs, locals, m, n - 1);
    }
}

/// The full frame size: the saved-register reservation plus every local,
/// rounded up to a 16-byte boundary.
pub open spec fn spec_total_size(cs: Seq<CompoundType>, locals: Seq<FrameIndexInfo>) -> int {
    spec_roundup(
        SAVED_REG_SZ + locals_size_prefix(cs, locals, locals.len() as int),
        16,
    )
}

/// The frame-pointer-relative offset of the local numbered `j`.
pub open spec fn spec_local_offset(cs: Seq<CompoundType>, locals: Seq<FrameIndexInfo>, j: int) -> int {
    -(spec_total_size(cs, locals) - SAVED_REG_SZ) - locals_size_prefix(cs, locals, j + 1)
}

/// The resolved frame layout: each local's byte offset from the frame
/// pointer, and the total frame size.
#[derive(Debug)]
pub struct FrameObjectsInfo {
    pub offset_map: OffsetMap,
    pub total_size: usize,
}

impl FrameObjectsInfo {
    /// The resolved offsets, one per frame index that has one.
    pub open spec fn offsets(&self) -> Map<FrameIndexKind, i32> {
        self.offset_map@
    }

    pub open spec fn wf(&self) -> bool {
        self.total_size <= i32::MAX
    }

    /// Lays out the frame of `f`: sums the locals' sizes on top of the
    /// saved-register reservation, rounds the total to 16 bytes, and gives
    /// the local numbered `j` the offset
    /// `-(total_size - SAVED_REG_SZ) - (size of locals 0 ..= j)`.
    pub fn new(tys: &Types, f: &MachineFunction) -> (r: Self)
        requires
            tys.wf(),
            f.local_mgr.wf(),
            forall|j: int|
                0 <= j < f.local_mgr.locals@.len() ==> ty_valid(
                    tys.compounds@,
                    (#[trigger] f.local_mgr.locals@[j]).ty,
                ),
            SAVED_REG_SZ + locals_size_prefix(
                tys.compounds@,
                f.local_mgr.locals@,
                f.local_mgr.locals@.len() as int,
            ) <= FRAME_BYTES_CAP,
        ensures
            r.total_size == spec_total_size(tys.compounds@, f.local_mgr.locals@),
            r.total_size as int % 16 == 0,
            r.wf(),
            forall|j: int|
                0 <= j < f.local_mgr.locals@.len() ==> r.offsets().contains_key(
                    (#[trigger] f.local_mgr.locals@[j]).idx,
                ),
            forall|k: FrameIndexKind|
                #[trigger] r.offsets().contains_key(k) ==> match k {
                    FrameIndexKind::Local(j) => j < f.local_mgr.locals@.len() && r.offsets()[k]
                        == spec_local_offset(tys.compounds@, f.local_mgr.locals@, j as int),
                    FrameIndexKind::Arg(_) => false,
                },
    {
        let ghost cs = tys.compounds@;
        let ghost lseq = f.local_mgr.locals@;
        let locals = &f.local_mgr.locals;
        let n = locals.len();

        let mut total_size: usize = SAVED_REG_SZ;
        for i in 0..n
            invariant
                n == lseq.len(),
                lseq == f.local_mgr.locals@,
                cs == tys.compounds@,
                tys.wf(),
                forall|j: int| 0 <= j < lseq.len() ==> ty_valid(cs, (#[trigger] lseq[j]).ty),
                SAVED_REG_SZ + locals_size_prefix(cs, lseq, lseq.len() as int) <= FRAME_BYTES_CAP,
                total_size == SAVED_REG_SZ + locals_size_prefix(cs, lseq, i as int),
            decreases n - i,
        {
            proof {
                lemma_prefix_monotone(cs, lseq, i + 1, lseq.len() as int);
            }
            total_size = total_size + locals[i].ty.size_in_byte(tys);
        }

        let total_i32 = crate::roundup(total_size as i32, 16);
        let total_size: usize = total_i32 as usize;
        proof {
            lemma_prefix_monotone(cs, lseq, 0, lseq.len() as int);
        }

        let mut offset_map = OffsetMap::new();
        let mut sz: i32 = 0;
        let mut i: usize = 0;
        while i < n
            invariant
                0 <= i <= n,
                n == lseq.len(),
                lseq == f.local_mgr.locals@,
                cs == tys.compounds@,
                tys.wf(),
                f.local_mgr.wf(),
                forall|j: int| 0 <= j < lseq.len() ==> ty_valid(cs, (#[trigger] lseq[j]).ty),
                SAVED_REG_SZ + locals_size_prefix(cs, lseq, lseq.len() as int) <= FRAME_BYTES_CAP,
                total_size == spec_total_size(cs, lseq),
                sz == locals_size_prefix(cs, lseq, i as int),
                forall|j: int|
                    0 <= j < i ==> offset_map@.contains_key((#[trigger] lseq[j]).idx),
                forall|k: FrameIndexKind|
                    #[trigger] offset_map@.contains_key(k) ==> match k {
                        FrameIndexKind::Local(j) => j < i && offset_map@[k] == spec_local_offset(
                            cs,
                            lseq,
                            j as int,
                        ),
                        FrameIndexKind::Arg(_) => false,
                    },
            decreases n - i,
        {
            proof {
                lemma_prefix_monotone(cs, lseq, i + 1, lseq.len() as int);
                lemma_prefix_monotone(cs, lseq, 0, i as int);
            }
            sz = sz + locals[i].ty.size_in_byte(tys) as i32;
            let off = -(total_i32 - SAVED_REG_SZ as i32) - sz;
            let ghost pre_map = offset_map@;
            offset_map.insert(locals[i].idx, off);
            proof {
                assert(off == spec_local_offset(cs, lseq, i as int));
                assert(offset_map@ == pre_map.insert(FrameIndexKind::Local(i), off));
                assert forall|k: FrameIndexKind| #[trigger] offset_map@.contains_key(k) implies match k {
                    FrameIndexKind::Local(j) => j < i + 1 && offset_map@[k] == spec_local_offset(
                        cs,
                        lseq,
                        j as int,
                    ),
                    FrameIndexKind::Arg(_) => false,
                } by {
                    if k != FrameIndexKind::Local(i) {
                        assert(pre_map.contains_key(k));
                    }
                }
            }
            i = i + 1;
        }

        FrameObjectsInfo { offset_map, total_size }
    }

    /// The offset of `kind`, if layout gave it one.
    pub fn offset(&self, kind: FrameIndexKind) -> (r: Option<i32>)
        ensures
            match r {
                Some(o) => self.offsets().contains_key(kind) && o == self.offsets()[kind],
                None => !self.offsets().contains_key(kind),
            },
    {
        self.offset_map.get(kind)
    }

    /// The total frame size in bytes.
    pub fn total_size(&self) -> (r: i32)
        requires
            self.wf(),
        ensures
            r == self.total_size,
    {
        self.total_size as i32
    }
}

/// Frame offsets are negative, fall as the allocation index rises, and are
/// distinct for locals of non-zero size: each local sits strictly below the
/// saved-register area and locals never overlap endpoints.
pub proof fn lemma_frame_offsets_decrease(
    cs: Seq<CompoundType>,
    locals: Seq<FrameIndexInfo>,
    j1: int,
    j2: int,
)
    requires
        0 <= j1 < j2 < locals.len(),
        forall|j: int| 0 <= j < locals.len() ==> spec_size_in_byte(cs, (#[trigger] locals[j]).ty) >= 0,
    ensures
        spec_local_offset(cs, locals, j1) < 0,
        spec_local_offset(cs, locals, j2) <= spec_local_offset(cs, locals, j1),
        spec_size_in_byte(cs, locals[j2].ty) > 0 ==> spec_local_offset(cs, locals, j2)
            < spec_local_offset(cs, locals, j1),
{
    lemma_prefix_monotone(cs, locals, 0, j1 + 1);
    lemma_prefix_monotone(cs, locals, j1 + 1, j2);
    lemma_prefix_monotone(cs, locals, j1 + 1, locals.len() as int);
    let base = SAVED_REG_SZ + locals_size_prefix(cs, locals, locals.len() as int);
    assert(spec_total_size(cs, locals) >= base) by {
        vstd::arithmetic::div_mod::lemma_fundamental_div_mod(base + 15, 16);
        vstd::arithmetic::div_mod::lemma_mod_bound(base + 15, 16);
    }
}

} // verus!
