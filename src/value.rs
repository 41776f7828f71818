//! The tagged value word: null, an inline primitive, or a reference to a heap wrapper.

use vstd::prelude::*;

verus! {

/// Type identifiers. Inline primitives have fixed identifiers; host types get theirs
/// from the embedder.
pub type TypeId = u64;

pub const TYPE_INT: TypeId = 1;

pub const TYPE_CHAR: TypeId = 3;

pub const TYPE_BOOL: TypeId = 4;

pub const TYPE_STRING: TypeId = 5;

/// Lifecycle state of a heap wrapper.
#[derive(Clone, Copy, PartialEq, Eq, Structural, Debug)]
pub enum GcInfo {
    /// Sentinel for values that live on the stack (inline primitives).
    OnStack,
    /// The guest owns the payload.
    Owned,
    /// A live immutable borrow has been handed to the host.
    SharedWithHost,
    /// A live mutable borrow has been handed to the host.
    MutSharedWithHost,
    /// The payload was consumed by the host.
    MovedToHost,
    /// Scheduled for or completed reclamation.
    Dropped,
    /// Sentinel for the null value.
    Null,
}

impl GcInfo {
    /// The numbering used by `from_u8` and `as_u8`.
    pub open spec fn code(self) -> u8 {
        match self {
            GcInfo::OnStack => 0,
            GcInfo::Owned => 1,
            GcInfo::SharedWithHost => 2,
            GcInfo::MutSharedWithHost => 3,
            GcInfo::MovedToHost => 4,
            GcInfo::Dropped => 5,
            GcInfo::Null => 6,
        }
    }

    pub fn from_u8(src: u8) -> (r: GcInfo)
        requires
            src < 7,
        ensures
            r.code() == src,
    {
        match src {
            0 => GcInfo::OnStack,
            1 => GcInfo::Owned,
            2 => GcInfo::SharedWithHost,
            3 => GcInfo::MutSharedWithHost,
            4 => GcInfo::MovedToHost,
            5 => GcInfo::Dropped,
            _ => GcInfo::Null,
        }
    }

    pub fn as_u8(&self) -> (r: u8)
        ensures
            r == self.code(),
    {
        match self {
            GcInfo::OnStack => 0,
            GcInfo::Owned => 1,
            GcInfo::SharedWithHost => 2,
            GcInfo::MutSharedWithHost => 3,
            GcInfo::MovedToHost => 4,
            GcInfo::Dropped => 5,
            GcInfo::Null => 6,
        }
    }
}

/// The kind of an inline primitive.
#[derive(Clone, Copy, PartialEq, Eq, Structural, Debug)]
pub enum ValueType {
    Int,
    Char,
    Bool,
}

/// A value word.
#[derive(Clone, Copy, PartialEq, Eq, Structural, Debug)]
pub enum Value {
    Null,
    Int(i64),
    Char(char),
    Bool(bool),
    /// A reference to the heap wrapper with this index.
    Ptr(usize),
}

impl Value {
    pub open spec fn spec_is_null(self) -> bool {
        self is Null
    }

    pub open spec fn spec_is_value(self) -> bool {
        self is Int || self is Char || self is Bool
    }

    pub open spec fn spec_is_ptr(self) -> bool {
        self is Ptr
    }

    /// The type identifier of an inline primitive.
    pub open spec fn inline_type_id(self) -> TypeId {
        match self {
            Value::Int(_) => TYPE_INT,
            Value::Char(_) => TYPE_CHAR,
            Value::Bool(_) => TYPE_BOOL,
            _ => 0,
        }
    }

    pub fn inline_type_id_exec(&self) -> (r: TypeId)
        ensures
            r == self.inline_type_id(),
    {
        match self {
            Value::Int(_) => TYPE_INT,
            Value::Char(_) => TYPE_CHAR,
            Value::Bool(_) => TYPE_BOOL,
            _ => 0,
        }
    }

    /// The canonical null value.
    pub fn null() -> (r: Value)
        ensures
            r.spec_is_null(),
    {
        Value::Null
    }

    pub fn from_int(i: i64) -> (r: Value)
        ensures
            r == Value::Int(i),
    {
        Value::Int(i)
    }

    pub fn from_char(c: char) -> (r: Value)
        ensures
            r == Value::Char(c),
    {
        Value::Char(c)
    }

    pub fn from_bool(b: bool) -> (r: Value)
        ensures
            r == Value::Bool(b),
    {
        Value::Bool(b)
    }

    pub fn from_ptr(index: usize) -> (r: Value)
        ensures
            r == Value::Ptr(index),
    {
        Value::Ptr(index)
    }

    pub fn is_null(&self) -> (r: bool)
        ensures
            r == self.spec_is_null(),
    {
        matches!(self, Value::Null)
    }

    /// True of an inline primitive.
    pub fn is_value(&self) -> (r: bool)
        ensures
            r == self.spec_is_value(),
    {
        match self {
            Value::Int(_) | Value::Char(_) | Value::Bool(_) => true,
            _ => false,
        }
    }

    /// True of a heap reference.
    pub fn is_ptr(&self) -> (r: bool)
        ensures
            r == self.spec_is_ptr(),
    {
        matches!(self, Value::Ptr(_))
    }

    /// The kind of an inline primitive, `None` for null and for heap references.
    pub fn value_type(&self) -> (r: Option<ValueType>)
        ensures
            r == (match *self {
                Value::Int(_) => Some(ValueType::Int),
                Value::Char(_) => Some(ValueType::Char),
                Value::Bool(_) => Some(ValueType::Bool),
                _ => None::<ValueType>,
            }),
    {
        match self {
            Value::Int(_) => Some(ValueType::Int),
            Value::Char(_) => Some(ValueType::Char),
            Value::Bool(_) => Some(ValueType::Bool),
            _ => None,
        }
    }

    pub fn as_int(&self) -> (r: Option<i64>)
        ensures
            r == (match *self {
                Value::Int(i) => Some(i),
                _ => None::<i64>,
            }),
    {
        match self {
            Value::Int(i) => Some(*i),
            _ => None,
        }
    }

    pub fn as_bool(&self) -> (r: Option<bool>)
        ensures
            r == (match *self {
                Value::Bool(b) => Some(b),
                _ => None::<bool>,
            }),
    {
        match self {
            Value::Bool(b) => Some(*b),
            _ => None,
        }
    }
}

/// Every value is exactly one of null, an inline primitive or a heap reference, and the
/// tag alone decides which.
pub proof fn lemma_value_kind_exclusive(v: Value)
    ensures
        v.spec_is_null() || v.spec_is_value() || v.spec_is_ptr(),
        !(v.spec_is_null() && v.spec_is_value()),
        !(v.spec_is_null() && v.spec_is_ptr()),
        !(v.spec_is_value() && v.spec_is_ptr()),
{
}

} // verus!
