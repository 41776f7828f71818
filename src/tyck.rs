//! Structural type plans, transfer disciplines, and the per-type descriptor table that
//! turns a host signature into the plans checked at a host-call site.

use vstd::prelude::*;

use crate::value::TypeId;

verus! {

broadcast use vstd::std_specs::vec::axiom_vec_index_decreases, vstd::std_specs::vec::axiom_vec_decreases_to_view;

/// The structural type of a value slot.
#[derive(Debug)]
pub enum TypeCheckInfo {
    /// A type without parameters, identified by its type identifier.
    SimpleType(TypeId),
    /// A container, identified by its erased container identifier, with the plans of its
    /// elements. A container plan without elements stands for any element type.
    Container(TypeId, Vec<TypeCheckInfo>),
    /// Matches anything; used for the opaque value pass-through.
    Bypass,
}

/// Whether an object whose plan is `obj` may be passed where `param` is expected.
pub open spec fn plan_matches(obj: TypeCheckInfo, param: TypeCheckInfo) -> bool
    decreases obj,
{
    match (obj, param) {
        (_, TypeCheckInfo::Bypass) => true,
        (TypeCheckInfo::Bypass, _) => true,
        (TypeCheckInfo::SimpleType(a), TypeCheckInfo::SimpleType(b)) => a == b,
        (TypeCheckInfo::Container(a, sa), TypeCheckInfo::Container(b, sb)) => {
            &&& a == b
            &&& (sb@.len() == 0 || (sa@.len() == sb@.len() && elements_match(sa@, sb@)))
        },
        _ => false,
    }
}

/// Element-wise matching of two plan sequences of the same length.
pub open spec fn elements_match(sa: Seq<TypeCheckInfo>, sb: Seq<TypeCheckInfo>) -> bool
    decreases sa,
{
    if sa.len() == 0 || sb.len() == 0 {
        true
    } else {
        plan_matches(sa[0], sb[0]) && elements_match(sa.drop_first(), sb.drop_first())
    }
}

/// Two plans with the same structure and identifiers.
pub open spec fn same_plan(a: TypeCheckInfo, b: TypeCheckInfo) -> bool
    decreases a,
{
    match (a, b) {
        (TypeCheckInfo::SimpleType(x), TypeCheckInfo::SimpleType(y)) => x == y,
        (TypeCheckInfo::Bypass, TypeCheckInfo::Bypass) => true,
        (TypeCheckInfo::Container(c, sa), TypeCheckInfo::Container(d, sb)) => c == d && sa@.len()
            == sb@.len() && same_plans(sa@, sb@),
        _ => false,
    }
}

/// Element-wise `same_plan` of two sequences of the same length.
pub open spec fn same_plans(sa: Seq<TypeCheckInfo>, sb: Seq<TypeCheckInfo>) -> bool
    decreases sa,
{
    if sa.len() == 0 || sb.len() == 0 {
        true
    } else {
        same_plan(sa[0], sb[0]) && same_plans(sa.drop_first(), sb.drop_first())
    }
}

proof fn lemma_same_plans_pointwise(sa: Seq<TypeCheckInfo>, sb: Seq<TypeCheckInfo>)
    requires
        sa.len() == sb.len(),
        forall|j: int| 0 <= j < sa.len() ==> same_plan(#[trigger] sa[j], sb[j]),
    ensures
        same_plans(sa, sb),
    decreases sa.len(),
{
    if sa.len() > 0 {
        assert forall|j: int| 0 <= j < sa.drop_first().len() implies same_plan(
            #[trigger] sa.drop_first()[j],
            sb.drop_first()[j],
        ) by {
            assert(sa.drop_first()[j] == sa[j + 1]);
        }
        lemma_same_plans_pointwise(sa.drop_first(), sb.drop_first());
    }
}

impl TypeCheckInfo {
    /// A fresh plan with the same structure.
    pub fn duplicate(&self) -> (r: TypeCheckInfo)
        ensures
            same_plan(r, *self),
        decreases *self,
    {
        match self {
            TypeCheckInfo::SimpleType(t) => TypeCheckInfo::SimpleType(*t),
            TypeCheckInfo::Bypass => TypeCheckInfo::Bypass,
            TypeCheckInfo::Container(c, elems) => {
                let mut out: Vec<TypeCheckInfo> = Vec::new();
                let mut i: usize = 0;
                while i < elems.len()
                    invariant
                        *self == TypeCheckInfo::Container(*c, *elems),
                        0 <= i <= elems@.len(),
                        out@.len() == i,
                        forall|j: int| 0 <= j < i ==> same_plan(#[trigger] out@[j], elems@[j]),
                    decreases elems.len() - i,
                {
                    assert(decreases_to!(*self => self->Container_1));
                    assert(decreases_to!(self->Container_1 => elems[i as int]));
                    let d = elems[i].duplicate();
                    out.push(d);
                    i = i + 1;
                }
                proof {
                    lemma_same_plans_pointwise(out@, elems@);
                }
                TypeCheckInfo::Container(*c, out)
            },
        }
    }
}

/// Structural matching of plans; see `plan_matches`.
pub fn type_check(obj: &TypeCheckInfo, param: &TypeCheckInfo) -> (r: bool)
    ensures
        r == plan_matches(*obj, *param),
    decreases *obj,
{
    match (obj, param) {
        (_, TypeCheckInfo::Bypass) => true,
        (TypeCheckInfo::Bypass, _) => true,
        (TypeCheckInfo::SimpleType(a), TypeCheckInfo::SimpleType(b)) => *a == *b,
        (TypeCheckInfo::Container(a, sa), TypeCheckInfo::Container(b, sb)) => {
            if *a != *b {
                return false;
            }
            if sb.len() == 0 {
                return true;
            }
            if sa.len() != sb.len() {
                return false;
            }
            assert(sa@.subrange(0, sa@.len() as int) =~= sa@);
            assert(sb@.subrange(0, sb@.len() as int) =~= sb@);
            let mut i: usize = 0;
            while i < sa.len()
                invariant
                    *obj == TypeCheckInfo::Container(*a, *sa),
                    *param == TypeCheckInfo::Container(*b, *sb),
                    *a == *b,
                    sb@.len() != 0,
                    sa@.len() == sb@.len(),
                    0 <= i <= sa@.len(),
                    plan_matches(*obj, *param) == elements_match(
                        sa@.subrange(i as int, sa@.len() as int),
                        sb@.subrange(i as int, sb@.len() as int),
                    ),
                decreases sa.len() - i,
            {
                let ghost ra = sa@.subrange(i as int, sa@.len() as int);
                let ghost rb = sb@.subrange(i as int, sb@.len() as int);
                proof {
                    assert(ra.drop_first() =~= sa@.subrange(i + 1, sa@.len() as int));
                    assert(rb.drop_first() =~= sb@.subrange(i + 1, sb@.len() as int));
                    assert(decreases_to!(*obj => obj->Container_1));
                    assert(decreases_to!(obj->Container_1 => sa[i as int]));
                }
                if !type_check(&sa[i], &sb[i]) {
                    return false;
                }
                i = i + 1;
            }
            true
        },
        _ => false,
    }
}

/// Transfer discipline of one host parameter or return value.
#[derive(Clone, Copy, PartialEq, Eq, Structural, Debug)]
pub enum FFIAction {
    Move,
    Copy,
    Share,
    MutShare,
    Bypass,
}

/// How a host parameter reaches its type.
#[derive(Clone, Copy, PartialEq, Eq, Structural, Debug)]
pub enum Access {
    /// `T`
    ByValue,
    /// `&T`
    Ref,
    /// `&mut T`
    MutRef,
}

/// Descriptor of a host parameter type.
#[derive(Clone, Copy, PartialEq, Eq, Structural, Debug)]
pub enum HostType {
    /// The opaque value itself, passed through unchecked.
    AnyValue,
    /// A typed parameter: `T`, `&T` or `&mut T`, optionally wrapped in an option
    /// (`Option<T>`, `Option<&T>`, `&Option<T>`, ...).
    Typed { type_id: TypeId, copy: bool, access: Access, optional: bool },
}

/// The plan, action and nullability of one host parameter.
#[derive(Debug)]
pub struct ParamSpec {
    pub tyck_info: TypeCheckInfo,
    pub action: FFIAction,
    pub nullable: bool,
}

/// The plan, action and error kind of a host return value.
#[derive(Debug)]
pub struct ReturnSpec {
    pub tyck_info: TypeCheckInfo,
    pub action: FFIAction,
    /// The type identifier of the error kind, present iff the host routine is fallible.
    pub exception: Option<TypeId>,
}

impl HostType {
    pub open spec fn spec_tyck_info(self) -> TypeCheckInfo {
        match self {
            HostType::AnyValue => TypeCheckInfo::Bypass,
            HostType::Typed { type_id, .. } => TypeCheckInfo::SimpleType(type_id),
        }
    }

    pub open spec fn spec_ffi_action(self) -> FFIAction {
        match self {
            HostType::AnyValue => FFIAction::Bypass,
            HostType::Typed { copy, access, .. } => match access {
                Access::Ref => FFIAction::Share,
                Access::MutRef => FFIAction::MutShare,
                Access::ByValue => if copy {
                    FFIAction::Copy
                } else {
                    FFIAction::Move
                },
            },
        }
    }

    pub open spec fn spec_nullable(self) -> bool {
        match self {
            HostType::AnyValue => true,
            HostType::Typed { optional, .. } => optional,
        }
    }

    /// `T` by value; `copy` tells whether the type is copied rather than moved.
    pub fn plain(type_id: TypeId, copy: bool) -> (r: HostType)
        ensures
            r == (HostType::Typed { type_id, copy, access: Access::ByValue, optional: false }),
    {
        HostType::Typed { type_id, copy, access: Access::ByValue, optional: false }
    }

    /// `&T`
    pub fn reference(type_id: TypeId) -> (r: HostType)
        ensures
            r == (HostType::Typed { type_id, copy: false, access: Access::Ref, optional: false }),
    {
        HostType::Typed { type_id, copy: false, access: Access::Ref, optional: false }
    }

    /// `&mut T`
    pub fn mut_reference(type_id: TypeId) -> (r: HostType)
        ensures
            r == (HostType::Typed {
                type_id,
                copy: false,
                access: Access::MutRef,
                optional: false,
            }),
    {
        HostType::Typed { type_id, copy: false, access: Access::MutRef, optional: false }
    }

    /// The same type wrapped in an option.
    pub fn optional(self) -> (r: HostType)
        ensures
            r == (match self {
                HostType::AnyValue => HostType::AnyValue,
                HostType::Typed { type_id, copy, access, .. } => HostType::Typed {
                    type_id,
                    copy,
                    access,
                    optional: true,
                },
            }),
    {
        match self {
            HostType::AnyValue => HostType::AnyValue,
            HostType::Typed { type_id, copy, access, .. } => HostType::Typed {
                type_id,
                copy,
                access,
                optional: true,
            },
        }
    }

    /// The base type identifier, absent for the opaque value.
    pub fn base_type_id(&self) -> (r: Option<TypeId>)
        ensures
            r == (match *self {
                HostType::AnyValue => None::<TypeId>,
                HostType::Typed { type_id, .. } => Some(type_id),
            }),
    {
        match self {
            HostType::AnyValue => None,
            HostType::Typed { type_id, .. } => Some(*type_id),
        }
    }

    pub fn tyck_info(&self) -> (r: TypeCheckInfo)
        ensures
            r == self.spec_tyck_info(),
    {
        match self {
            HostType::AnyValue => TypeCheckInfo::Bypass,
            HostType::Typed { type_id, .. } => TypeCheckInfo::SimpleType(*type_id),
        }
    }

    /// Whether `plan` describes something compatible with this type.
    pub fn tyck(&self, plan: &TypeCheckInfo) -> (r: bool)
        ensures
            r == (match *self {
                HostType::AnyValue => true,
                HostType::Typed { type_id, .. } => *plan == TypeCheckInfo::SimpleType(type_id),
            }),
    {
        match self {
            HostType::AnyValue => true,
            HostType::Typed { type_id, .. } => match plan {
                TypeCheckInfo::SimpleType(t) => *t == *type_id,
                _ => false,
            },
        }
    }

    pub fn ffi_action(&self) -> (r: FFIAction)
        ensures
            r == self.spec_ffi_action(),
    {
        match self {
            HostType::AnyValue => FFIAction::Bypass,
            HostType::Typed { copy, access, .. } => match access {
                Access::Ref => FFIAction::Share,
                Access::MutRef => FFIAction::MutShare,
                Access::ByValue => if *copy {
                    FFIAction::Copy
                } else {
                    FFIAction::Move
                },
            },
        }
    }

    pub fn nullable(&self) -> (r: bool)
        ensures
            r == self.spec_nullable(),
    {
        match self {
            HostType::AnyValue => true,
            HostType::Typed { optional, .. } => *optional,
        }
    }

    /// The parameter plan of this type.
    pub fn param_spec(&self) -> (r: ParamSpec)
        ensures
            r.tyck_info == self.spec_tyck_info(),
            r.action == self.spec_ffi_action(),
            r.nullable == self.spec_nullable(),
    {
        ParamSpec { tyck_info: self.tyck_info(), action: self.ffi_action(), nullable: self.nullable() }
    }

    /// The return plan of this type; `exception` names the error kind of a fallible routine.
    pub fn return_spec(&self, exception: Option<TypeId>) -> (r: ReturnSpec)
        ensures
            r.tyck_info == self.spec_tyck_info(),
            r.action == self.spec_ffi_action(),
            r.exception == exception,
    {
        ReturnSpec { tyck_info: self.tyck_info(), action: self.ffi_action(), exception }
    }
}

} // verus!
