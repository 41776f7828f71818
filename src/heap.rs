//! Heap wrappers: a payload, its structural plan, and the lifecycle state that tracks
//! ownership across the host boundary.

use vstd::prelude::*;

use crate::tyck::{plan_matches, type_check, TypeCheckInfo};
use crate::value::{GcInfo, TypeId, Value};

verus! {

/// What a heap wrapper holds.
#[derive(Debug)]
pub enum Payload {
    /// Nothing: the payload was moved to the host.
    Empty,
    Int(i64),
    Char(char),
    Bool(bool),
    Text(String),
    /// An object of the embedder, known by a handle of its own.
    Handle(u64),
}

/// A heap object: payload, plan and lifecycle state.
#[derive(Debug)]
pub struct Wrapper {
    pub gc_info: GcInfo,
    pub tyck_info: TypeCheckInfo,
    pub payload: Payload,
}

/// The storage type identifier of a plan: containers are identified by their erased id.
pub open spec fn plan_type_id(plan: TypeCheckInfo) -> TypeId {
    match plan {
        TypeCheckInfo::SimpleType(t) => t,
        TypeCheckInfo::Container(c, _) => c,
        TypeCheckInfo::Bypass => 0,
    }
}

impl Wrapper {
    /// A wrapper that the guest owns.
    pub fn owned(payload: Payload, tyck_info: TypeCheckInfo) -> (r: Wrapper)
        ensures
            r.gc_info == GcInfo::Owned,
            r.tyck_info == tyck_info,
            r.payload == payload,
    {
        Wrapper { gc_info: GcInfo::Owned, tyck_info, payload }
    }

    /// A wrapper over an object that the host lends immutably.
    pub fn shared(payload: Payload, tyck_info: TypeCheckInfo) -> (r: Wrapper)
        ensures
            r.gc_info == GcInfo::SharedWithHost,
            r.tyck_info == tyck_info,
            r.payload == payload,
    {
        Wrapper { gc_info: GcInfo::SharedWithHost, tyck_info, payload }
    }

    /// A wrapper over an object that the host lends mutably.
    pub fn mut_shared(payload: Payload, tyck_info: TypeCheckInfo) -> (r: Wrapper)
        ensures
            r.gc_info == GcInfo::MutSharedWithHost,
            r.tyck_info == tyck_info,
            r.payload == payload,
    {
        Wrapper { gc_info: GcInfo::MutSharedWithHost, tyck_info, payload }
    }

    /// The storage type identifier, used for equality comparisons.
    pub fn dyn_type_id(&self) -> (r: TypeId)
        ensures
            r == plan_type_id(self.tyck_info),
    {
        match &self.tyck_info {
            TypeCheckInfo::SimpleType(t) => *t,
            TypeCheckInfo::Container(c, _) => *c,
            TypeCheckInfo::Bypass => 0,
        }
    }

    /// Whether this object satisfies `plan`.
    pub fn dyn_tyck(&self, plan: &TypeCheckInfo) -> (r: bool)
        ensures
            r == plan_matches(self.tyck_info, *plan),
    {
        type_check(&self.tyck_info, plan)
    }

    pub fn dyn_tyck_info(&self) -> (r: &TypeCheckInfo)
        ensures
            *r == self.tyck_info,
    {
        &self.tyck_info
    }

    /// Hands the payload out; the wrapper is left empty and marked as moved.
    pub fn move_out(&mut self) -> (r: Payload)
        requires
            old(self).gc_info == GcInfo::Owned,
        ensures
            r == old(self).payload,
            final(self).payload == Payload::Empty,
            final(self).gc_info == GcInfo::MovedToHost,
            final(self).tyck_info == old(self).tyck_info,
    {
        let mut out = Payload::Empty;
        std::mem::swap(&mut self.payload, &mut out);
        self.gc_info = GcInfo::MovedToHost;
        out
    }
}

/// The guest heap: wrappers addressed by index.
pub struct Heap {
    pub wrappers: Vec<Wrapper>,
}

/// The lifecycle state of a value, given the states of the heap's wrappers.
pub open spec fn value_gc_info(states: Seq<GcInfo>, v: Value) -> GcInfo {
    match v {
        Value::Null => GcInfo::Null,
        Value::Ptr(i) => states[i as int],
        _ => GcInfo::OnStack,
    }
}

impl Heap {
    /// The lifecycle state of every wrapper, by index.
    pub open spec fn states(&self) -> Seq<GcInfo> {
        Seq::new(self.wrappers@.len(), |i: int| self.wrappers@[i].gc_info)
    }

    /// A value whose heap reference, if any, names a wrapper of this heap.
    pub open spec fn valid_value(&self, v: Value) -> bool {
        v is Ptr ==> v->Ptr_0 < self.wrappers@.len()
    }

    /// The plan of a value: fixed for inline primitives, stored for heap objects.
    pub open spec fn value_plan(&self, v: Value) -> TypeCheckInfo {
        match v {
            Value::Ptr(i) => self.wrappers@[i as int].tyck_info,
            _ => TypeCheckInfo::SimpleType(v.inline_type_id()),
        }
    }

    /// Equal except for lifecycle states.
    pub open spec fn same_objects(&self, other: &Heap) -> bool {
        &&& self.wrappers@.len() == other.wrappers@.len()
        &&& forall|i: int|
            0 <= i < self.wrappers@.len() ==> {
                &&& (#[trigger] self.wrappers@[i]).payload == other.wrappers@[i].payload
                &&& self.wrappers@[i].tyck_info == other.wrappers@[i].tyck_info
            }
    }

    pub fn new() -> (r: Heap)
        ensures
            r.wrappers@.len() == 0,
    {
        Heap { wrappers: Vec::new() }
    }

    pub fn len(&self) -> (r: usize)
        ensures
            r == self.wrappers@.len(),
    {
        self.wrappers.len()
    }

    /// Places a wrapper on the heap and returns a reference to it.
    pub fn allocate(&mut self, w: Wrapper) -> (r: Value)
        ensures
            r == Value::Ptr(old(self).wrappers@.len() as usize),
            final(self).wrappers@ == old(self).wrappers@.push(w),
    {
        let idx = self.wrappers.len();
        self.wrappers.push(w);
        Value::Ptr(idx)
    }

    pub fn get(&self, index: usize) -> (r: &Wrapper)
        requires
            index < self.wrappers@.len(),
        ensures
            *r == self.wrappers@[index as int],
    {
        &self.wrappers[index]
    }

    /// The lifecycle state of a value: `Null` for null, `OnStack` for inline primitives,
    /// the wrapper's state for heap references.
    pub fn gc_info(&self, v: Value) -> (r: GcInfo)
        requires
            self.valid_value(v),
        ensures
            r == value_gc_info(self.states(), v),
    {
        match v {
            Value::Null => GcInfo::Null,
            Value::Ptr(i) => self.wrappers[i].gc_info,
            _ => GcInfo::OnStack,
        }
    }

    /// Sets the lifecycle state of a heap reference; does nothing to other values.
    pub fn set_gc_info(&mut self, v: Value, gc_info: GcInfo)
        requires
            old(self).valid_value(v),
        ensures
            final(self).states() == (match v {
                Value::Ptr(i) => old(self).states().update(i as int, gc_info),
                _ => old(self).states(),
            }),
            final(self).same_objects(old(self)),
    {
        if let Value::Ptr(i) = v {
            self.wrappers[i].gc_info = gc_info;
        }
        assert(self.states() =~= (match v {
            Value::Ptr(i) => old(self).states().update(i as int, gc_info),
            _ => old(self).states(),
        }));
    }

    /// The storage type identifier of a value.
    pub fn type_id_of(&self, v: Value) -> (r: TypeId)
        requires
            self.valid_value(v),
        ensures
            r == plan_type_id(self.value_plan(v)),
    {
        match v {
            Value::Ptr(i) => self.wrappers[i].dyn_type_id(),
            _ => v.inline_type_id_exec(),
        }
    }

    /// Whether a non-null value satisfies `plan`.
    pub fn value_tyck(&self, v: Value, plan: &TypeCheckInfo) -> (r: bool)
        requires
            self.valid_value(v),
        ensures
            r == plan_matches(self.value_plan(v), *plan),
    {
        match v {
            Value::Ptr(i) => self.wrappers[i].dyn_tyck(plan),
            _ => {
                let own = TypeCheckInfo::SimpleType(v.inline_type_id_exec());
                type_check(&own, plan)
            },
        }
    }

    /// Takes a wrapper's payload, leaving it empty; lifecycle states do not change.
    pub fn take_payload(&mut self, index: usize) -> (r: Payload)
        requires
            index < old(self).wrappers@.len(),
        ensures
            r == old(self).wrappers@[index as int].payload,
            final(self).wrappers@.len() == old(self).wrappers@.len(),
            final(self).states() == old(self).states(),
            final(self).wrappers@[index as int].payload == Payload::Empty,
            final(self).wrappers@[index as int].tyck_info == old(self).wrappers@[index as int].tyck_info,
            forall|i: int|
                0 <= i < old(self).wrappers@.len() && i != index
                    ==> #[trigger] final(self).wrappers@[i] == old(self).wrappers@[i],
    {
        let mut out = Payload::Empty;
        std::mem::swap(&mut self.wrappers[index].payload, &mut out);
        assert(self.states() =~= old(self).states());
        out
    }

    /// Moves the payload of an owned wrapper out to the host.
    pub fn move_out(&mut self, index: usize) -> (r: Payload)
        requires
            index < old(self).wrappers@.len(),
            old(self).wrappers@[index as int].gc_info == GcInfo::Owned,
        ensures
            r == old(self).wrappers@[index as int].payload,
            final(self).wrappers@.len() == old(self).wrappers@.len(),
            final(self).states() == old(self).states().update(index as int, GcInfo::MovedToHost),
            final(self).wrappers@[index as int].payload == Payload::Empty,
            forall|i: int|
                0 <= i < old(self).wrappers@.len() ==> (#[trigger] final(self).wrappers@[i]).tyck_info
                    == old(self).wrappers@[i].tyck_info,
            forall|i: int|
                0 <= i < old(self).wrappers@.len() && i != index
                    ==> (#[trigger] final(self).wrappers@[i]).payload == old(self).wrappers@[i].payload,
    {
        let r = self.wrappers[index].move_out();
        assert(self.states() =~= old(self).states().update(index as int, GcInfo::MovedToHost));
        r
    }
}

} // verus!
