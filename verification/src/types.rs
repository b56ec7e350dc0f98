use vstd::prelude::*;

verus! {

/// An IR value type. Compound types (arrays, structs, pointers) refer by
/// index into the `Types` arena that owns them.
#[derive(Clone, Copy, Debug, PartialEq, Eq, Hash, Structural)]
pub enum Type {
    Void,
    Int1,
    Int8,
    Int32,
    Int64,
    F64,
    Pointer(usize),
    Array(usize),
    Struct(usize),
}

/// An array type: an element type repeated `len` times.
#[derive(Clone, Copy, Debug, PartialEq, Eq, Structural)]
pub struct ArrayType {
    pub elem_ty: Type,
    pub len: usize,
}

/// A struct type with its layout already computed by the front end.
#[derive(Clone, Copy, Debug, PartialEq, Eq, Structural)]
pub struct StructType {
    pub size: usize,
    pub align: usize,
}

/// A compound type stored in the `Types` arena.
#[derive(Clone, Copy, Debug, PartialEq, Eq, Structural)]
pub enum CompoundType {
    Array(ArrayType),
    Struct(StructType),
    Pointer(Type),
}

/// The arena of compound types of one module. A type built later may only
/// refer to types stored earlier, so the arena is free of reference cycles.
#[derive(Clone, Debug)]
pub struct Types {
    pub compounds: Vec<CompoundType>,
}

/// An upper bound on the arena indices a type refers to; recursions over
/// types decrease on it.
pub open spec fn ty_measure(ty: Type) -> nat {
    match ty {
        Type::Pointer(id) => id as nat + 1,
        Type::Array(id) => id as nat + 1,
        Type::Struct(id) => id as nat + 1,
        _ => 0,
    }
}

/// Every compound refers only to strictly earlier arena entries.
pub open spec fn wf_compounds(cs: Seq<CompoundType>) -> bool {
    forall|i: int|
        0 <= i < cs.len() ==> match #[trigger] cs[i] {
            CompoundType::Array(a) => ty_measure(a.elem_ty) <= i,
            CompoundType::Pointer(t) => ty_measure(t) <= i,
            CompoundType::Struct(_) => true,
        }
}

/// The type is a key into the arena: its indices exist and point at the
/// matching compound kind.
pub open spec fn ty_valid(cs: Seq<CompoundType>, ty: Type) -> bool
    decreases ty_measure(ty),
        when wf_compounds(cs)
{
    match ty {
        Type::Pointer(id) => id < cs.len() && match cs[id as int] {
            CompoundType::Pointer(t) => ty_valid(cs, t),
            _ => false,
        },
        Type::Array(id) => id < cs.len() && match cs[id as int] {
            CompoundType::Array(a) => ty_valid(cs, a.elem_ty),
            _ => false,
        },
        Type::Struct(id) => id < cs.len() && cs[id as int] is Struct,
        _ => true,
    }
}

/// The byte size of a type: fixed for scalars and pointers, recursively
/// computed for arrays, taken from the precomputed layout for structs.
pub open spec fn spec_size_in_byte(cs: Seq<CompoundType>, ty: Type) -> nat
    decreases ty_measure(ty),
        when wf_compounds(cs)
{
    match ty {
        Type::Void => 0,
        Type::Int1 => 1,
        Type::Int8 => 1,
        Type::Int32 => 4,
        Type::Int64 => 8,
        Type::F64 => 8,
        Type::Pointer(_) => 8,
        Type::Array(id) => if id < cs.len() {
            match cs[id as int] {
                CompoundType::Array(a) => spec_size_in_byte(cs, a.elem_ty) * a.len as nat,
                _ => 0,
            }
        } else {
            0
        },
        Type::Struct(id) => if id < cs.len() {
            match cs[id as int] {
                CompoundType::Struct(s) => s.size as nat,
                _ => 0,
            }
        } else {
            0
        },
    }
}

/// The byte alignment of a type. An array is aligned as its element, but
/// never beyond `MAX_ALIGN` once it outgrows that bound.
pub open spec fn spec_align_in_byte(cs: Seq<CompoundType>, ty: Type) -> nat
    decreases ty_measure(ty),
        when wf_compounds(cs)
{
    match ty {
        Type::Void => 0,
        Type::Int1 => 1,
        Type::Int8 => 1,
        Type::Int32 => 4,
        Type::Int64 => 8,
        Type::F64 => 8,
        Type::Pointer(_) => 8,
        Type::Array(id) => if id < cs.len() {
            match cs[id as int] {
                CompoundType::Array(a) => if spec_size_in_byte(cs, Type::Array(id))
                    > MAX_ALIGN as nat {
                    MAX_ALIGN as nat
                } else {
                    spec_align_in_byte(cs, a.elem_ty)
                },
                _ => 0,
            }
        } else {
            0
        },
        Type::Struct(id) => if id < cs.len() {
            match cs[id as int] {
                CompoundType::Struct(s) => s.align as nat,
                _ => 0,
            }
        } else {
            0
        },
    }
}

pub const MAX_ALIGN: usize = 16;

impl Types {
    /// The arena is closed (no forward references) and every array size the
    /// arena can describe fits in a machine word.
    pub open spec fn wf(&self) -> bool {
        &&& wf_compounds(self.compounds@)
        &&& forall|i: int|
            0 <= i < self.compounds@.len() ==> match #[trigger] self.compounds@[i] {
                CompoundType::Array(a) => ty_valid(self.compounds@, a.elem_ty)
                    && spec_size_in_byte(self.compounds@, a.elem_ty) * a.len <= usize::MAX,
                CompoundType::Pointer(t) => ty_valid(self.compounds@, t),
                CompoundType::Struct(_) => true,
            }
    }

    pub fn new() -> (r: Self)
        ensures
            r.compounds@ =~= Seq::<CompoundType>::empty(),
            r.wf(),
    {
        Types { compounds: Vec::new() }
    }
}

impl Type {
    /// How many bytes a value of this type occupies.
    pub fn size_in_byte(&self, tys: &Types) -> (r: usize)
        requires
            tys.wf(),
            ty_valid(tys.compounds@, *self),
        ensures
            r == spec_size_in_byte(tys.compounds@, *self),
        decreases ty_measure(*self), 0nat,
    {
        match self {
            Type::Void => 0,
            Type::Int1 => 1,
            Type::Int8 => 1,
            Type::Int32 => 4,
            Type::Int64 => 8,
            Type::F64 => 8,
            Type::Pointer(_) => 8,
            Type::Array(id) => match &tys.compounds[*id] {
                CompoundType::Array(a) => a.size_in_byte(tys),
                _ => 0,
            },
            Type::Struct(id) => match &tys.compounds[*id] {
                CompoundType::Struct(s) => s.size_in_byte(tys),
                _ => 0,
            },
        }
    }

    /// The size in bits: eight times the byte size.
    pub fn size_in_bits(&self, tys: &Types) -> (r: usize)
        requires
            tys.wf(),
            ty_valid(tys.compounds@, *self),
            spec_size_in_byte(tys.compounds@, *self) * 8 <= usize::MAX,
        ensures
            r == spec_size_in_byte(tys.compounds@, *self) * 8,
    {
        self.size_in_byte(tys) * 8
    }

    /// The alignment in bytes.
    pub fn align_in_byte(&self, tys: &Types) -> (r: usize)
        requires
            tys.wf(),
            ty_valid(tys.compounds@, *self),
        ensures
            r == spec_align_in_byte(tys.compounds@, *self),
        decreases ty_measure(*self), 0nat,
    {
        match self {
            Type::Void => 0,
            Type::Int1 => 1,
            Type::Int8 => 1,
            Type::Int32 => 4,
            Type::Int64 => 8,
            Type::F64 => 8,
            Type::Pointer(_) => 8,
            Type::Array(id) => match &tys.compounds[*id] {
                CompoundType::Array(a) => a.align_in_byte(tys),
                _ => 0,
            },
            Type::Struct(id) => match &tys.compounds[*id] {
                CompoundType::Struct(s) => s.align_in_byte(tys),
                _ => 0,
            },
        }
    }
}

impl ArrayType {
    /// Requires the array to be one the arena vouches for, so that the
    /// element recursion terminates and the product cannot overflow.
    pub fn size_in_byte(&self, tys: &Types) -> (r: usize)
        requires
            tys.wf(),
            ty_valid(tys.compounds@, self.elem_ty),
            spec_size_in_byte(tys.compounds@, self.elem_ty) * self.len <= usize::MAX,
        ensures
            r == spec_size_in_byte(tys.compounds@, self.elem_ty) * self.len,
        decreases ty_measure(self.elem_ty), 1nat,
    {
        self.elem_ty.size_in_byte(tys) * self.len
    }

    pub fn size_in_bits(&self, tys: &Types) -> (r: usize)
        requires
            tys.wf(),
            ty_valid(tys.compounds@, self.elem_ty),
            spec_size_in_byte(tys.compounds@, self.elem_ty) * self.len * 8 <= usize::MAX,
        ensures
            r == spec_size_in_byte(tys.compounds@, self.elem_ty) * self.len * 8,
    {
        proof {
            vstd::arithmetic::mul::lemma_mul_nonnegative(
                spec_size_in_byte(tys.compounds@, self.elem_ty) as int,
                self.len as int,
            );
        }
        self.size_in_byte(tys) * 8
    }

    pub fn align_in_byte(&self, tys: &Types) -> (r: usize)
        requires
            tys.wf(),
            ty_valid(tys.compounds@, self.elem_ty),
            spec_size_in_byte(tys.compounds@, self.elem_ty) * self.len <= usize::MAX,
        ensures
            r == if spec_size_in_byte(tys.compounds@, self.elem_ty) * self.len > MAX_ALIGN as nat {
                MAX_ALIGN as nat
            } else {
                spec_align_in_byte(tys.compounds@, self.elem_ty)
            },
        decreases ty_measure(self.elem_ty), 1nat,
    {
        let size = self.size_in_byte(tys);
        let align = self.elem_ty.align_in_byte(tys);
        if size > MAX_ALIGN {
            MAX_ALIGN
        } else {
            align
        }
    }
}

impl StructType {
    pub fn size_in_byte(&self, _tys: &Types) -> (r: usize)
        ensures
            r == self.size,
    {
        self.size
    }

    pub fn size_in_bits(&self, tys: &Types) -> (r: usize)
        requires
            self.size * 8 <= usize::MAX,
        ensures
            r == self.size * 8,
    {
        self.size_in_byte(tys) * 8
    }

    pub fn align_in_byte(&self, _tys: &Types) -> (r: usize)
        ensures
            r == self.align,
    {
        self.align
    }
}

} // verus!
