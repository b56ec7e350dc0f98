use vstd::prelude::*;

verus! {

#[verifier::external_type_specification]
#[verifier::external_body]
pub struct ExFxBuildHasher(rustc_hash::FxBuildHasher);

/// A set of arena indices (instruction ids), backed by `rustc_hash`'s
/// `FxHashSet`. Liveness records hold their `def`, `live_in` and `live_out`
/// members in these.
#[derive(Debug)]
pub struct IdSet {
    set: rustc_hash::FxHashSet<usize>,
}

impl View for IdSet {
    type V = Set<usize>;

    closed spec fn view(&self) -> Set<usize> {
        self.set@
    }
}

impl IdSet {
    /// Relies on `HashSet::default`: a freshly built set is empty.
    #[verifier::external_body]
    pub fn new() -> (r: Self)
        ensures
            r@ == Set::<usize>::empty(),
    {
        IdSet { set: rustc_hash::FxHashSet::default() }
    }

    /// Relies on `HashSet::insert`: the value is added, and the result says
    /// whether it was absent before.
    #[verifier::external_body]
    pub fn insert(&mut self, id: usize) -> (r: bool)
        ensures
            final(self)@ == old(self)@.insert(id),
            r == !old(self)@.contains(id),
    {
        self.set.insert(id)
    }

    /// Relies on `HashSet::contains`.
    #[verifier::external_body]
    pub fn contains(&self, id: usize) -> (r: bool)
        ensures
            r == self@.contains(id),
    {
        self.set.contains(&id)
    }

    /// Relies on `HashSet::clear`: all members are removed.
    #[verifier::external_body]
    pub fn clear(&mut self)
        ensures
            final(self)@ == Set::<usize>::empty(),
    {
        self.set.clear()
    }

    /// Relies on `HashSet::len`: the number of members, each counted once.
    #[verifier::external_body]
    pub fn len(&self) -> (r: usize)
        requires
            self@.finite(),
        ensures
            r == self@.len(),
    {
        self.set.len()
    }

    /// Relies on `HashSet::clone`: the copy holds the same members.
    #[verifier::external_body]
    pub fn duplicate(&self) -> (r: Self)
        ensures
            r@ == self@,
    {
        IdSet { set: self.set.clone() }
    }

    /// Relies on `HashSet`'s `PartialEq`: equal exactly when the members are
    /// the same.
    #[verifier::external_body]
    pub fn set_eq(&self, other: &IdSet) -> (r: bool)
        ensures
            r == (self@ == other@),
    {
        self.set == other.set
    }
}

/// A map from arena indices to arena indices, backed by `rustc_hash`'s
/// `FxHashMap`. The instruction selector records under it which selected
/// node stands for each original node.
#[derive(Debug)]
pub struct IdMap {
    map: rustc_hash::FxHashMap<usize, usize>,
}

impl View for IdMap {
    type V = Map<usize, usize>;

    closed spec fn view(&self) -> Map<usize, usize> {
        self.map@
    }
}

/// The empty selection record.
pub open spec fn empty_id_map() -> Map<usize, usize> {
    Map::empty()
}

impl IdMap {
    /// Relies on `HashMap::default`: a freshly built map is empty.
    #[verifier::external_body]
    pub fn new() -> (r: Self)
        ensures
            r@ == empty_id_map(),
    {
        IdMap { map: rustc_hash::FxHashMap::default() }
    }

    /// Relies on `HashMap::insert`: the key now maps to the value; other
    /// keys are untouched.
    #[verifier::external_body]
    pub fn insert(&mut self, k: usize, v: usize)
        ensures
            final(self)@ == old(self)@.insert(k, v),
    {
        self.map.insert(k, v);
    }

    /// Relies on `HashMap::get`.
    #[verifier::external_body]
    pub fn get(&self, k: usize) -> (r: Option<usize>)
        ensures
            match r {
                Some(v) => self@.contains_key(k) && self@[k] == v,
                None => !self@.contains_key(k),
            },
    {
        self.map.get(&k).copied()
    }
}

} // verus!
