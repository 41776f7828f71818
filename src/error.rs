//! Structured errors that cross the host boundary.

use vstd::prelude::*;

use crate::tyck::FFIAction;
use crate::value::{GcInfo, TypeId};

verus! {

/// Every error the machine reports.
#[derive(Debug)]
pub enum TError {
    /// A transfer could not be applied because of the object's lifecycle state.
    LifetimeError(LifetimeError),
    /// A value's runtime type did not satisfy the declared plan.
    TypeError(TypeError),
    /// A non-nullable slot received null.
    NullError(NullError),
    /// An internal invariant was violated; fatal.
    UncheckedException(String),
    /// An error produced by a fallible host routine.
    UserException(UserException),
}

/// A host routine's error, kept verbatim: the identifier of its kind and its message.
#[derive(Debug)]
pub struct UserException {
    pub type_id: TypeId,
    pub message: String,
}

#[derive(Debug)]
pub struct LifetimeError {
    /// The states in which the action would have been allowed.
    pub required: Vec<GcInfo>,
    pub action: FFIAction,
    pub actual: GcInfo,
    pub extra_info: Option<String>,
}

#[derive(Debug)]
pub struct TypeError {
    pub required: TypeId,
    pub actual: TypeId,
    pub required_name: Option<String>,
    pub actual_name: Option<String>,
    pub extra_info: Option<String>,
}

#[derive(Debug)]
pub struct NullError();

impl TError {
    pub fn unchecked_exception(info: String) -> (r: TError)
        ensures
            r == TError::UncheckedException(info),
    {
        TError::UncheckedException(info)
    }

    pub fn user_exception(type_id: TypeId, message: String) -> (r: TError)
        ensures
            r is UserException,
            r->UserException_0.type_id == type_id,
            r->UserException_0.message == message,
    {
        TError::UserException(UserException { type_id, message })
    }
}

impl LifetimeError {
    pub fn new(required: Vec<GcInfo>, action: FFIAction, actual: GcInfo) -> (r: LifetimeError)
        ensures
            r.required@ == required@,
            r.action == action,
            r.actual == actual,
            r.extra_info is None,
    {
        LifetimeError { required, action, actual, extra_info: None }
    }

    pub fn add_extra_info(self, extra_info: String) -> (r: LifetimeError)
        ensures
            r.required@ == self.required@,
            r.action == self.action,
            r.actual == self.actual,
            r.extra_info == Some(extra_info),
    {
        let mut ret = self;
        ret.extra_info = Some(extra_info);
        ret
    }
}

impl TypeError {
    pub fn new(required: TypeId, got: TypeId) -> (r: TypeError)
        ensures
            r.required == required,
            r.actual == got,
            r.required_name is None,
            r.actual_name is None,
            r.extra_info is None,
    {
        TypeError {
            required,
            actual: got,
            required_name: None,
            actual_name: None,
            extra_info: None,
        }
    }

    pub fn add_required_name(self, required_name: String) -> (r: TypeError)
        ensures
            r.required == self.required,
            r.actual == self.actual,
            r.required_name == Some(required_name),
            r.actual_name == self.actual_name,
            r.extra_info == self.extra_info,
    {
        let mut ret = self;
        ret.required_name = Some(required_name);
        ret
    }

    pub fn add_actual_name(self, actual_name: String) -> (r: TypeError)
        ensures
            r.required == self.required,
            r.actual == self.actual,
            r.required_name == self.required_name,
            r.actual_name == Some(actual_name),
            r.extra_info == self.extra_info,
    {
        let mut ret = self;
        ret.actual_name = Some(actual_name);
        ret
    }

    pub fn add_extra_info(self, extra_info: String) -> (r: TypeError)
        ensures
            r.required == self.required,
            r.actual == self.actual,
            r.required_name == self.required_name,
            r.actual_name == self.actual_name,
            r.extra_info == Some(extra_info),
    {
        let mut ret = self;
        ret.extra_info = Some(extra_info);
        ret
    }
}

} // verus!
