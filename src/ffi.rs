//! Host-call marshaling: per-parameter checks, lifecycle guards that either all apply or
//! all roll back, and the conversion of values to and from the host.

use vstd::prelude::*;

use crate::error::{LifetimeError, NullError, TError, TypeError, UserException};
use crate::heap::{plan_type_id, value_gc_info, Heap, Payload, Wrapper};
use crate::tyck::{plan_matches, same_plan, FFIAction, ParamSpec, ReturnSpec, TypeCheckInfo};
use crate::value::{GcInfo, Value};

verus! {

/// Whether an object in state `s` may be transferred with `action`.
pub open spec fn lifetime_allows(s: GcInfo, action: FFIAction) -> bool {
    match action {
        FFIAction::Copy => s is Owned || s is SharedWithHost || s is MutSharedWithHost || s is OnStack,
        FFIAction::Share => s is Owned || s is SharedWithHost,
        FFIAction::MutShare => s is Owned || s is MutSharedWithHost,
        FFIAction::Move => s is Owned,
        FFIAction::Bypass => true,
    }
}

/// The states in which `action` is allowed, as reported by a lifetime error.
pub open spec fn required_states(action: FFIAction) -> Seq<GcInfo> {
    match action {
        FFIAction::Copy => seq![
            GcInfo::Owned,
            GcInfo::SharedWithHost,
            GcInfo::MutSharedWithHost,
            GcInfo::OnStack,
        ],
        FFIAction::Share => seq![GcInfo::Owned, GcInfo::SharedWithHost],
        FFIAction::MutShare => seq![GcInfo::Owned, GcInfo::MutSharedWithHost],
        FFIAction::Move => seq![GcInfo::Owned],
        FFIAction::Bypass => Seq::empty(),
    }
}

/// The states in which `action` is allowed.
pub fn required_lifetimes(action: FFIAction) -> (r: Vec<GcInfo>)
    ensures
        r@ == required_states(action),
{
    let r = match action {
        FFIAction::Copy => vec![
            GcInfo::Owned,
            GcInfo::SharedWithHost,
            GcInfo::MutSharedWithHost,
            GcInfo::OnStack,
        ],
        FFIAction::Share => vec![GcInfo::Owned, GcInfo::SharedWithHost],
        FFIAction::MutShare => vec![GcInfo::Owned, GcInfo::MutSharedWithHost],
        FFIAction::Move => vec![GcInfo::Owned],
        FFIAction::Bypass => Vec::new(),
    };
    assert(r@ =~= required_states(action));
    r
}

/// Checks that an object in state `gc_info` may be transferred with `action`.
pub fn lifetime_check(gc_info: GcInfo, action: FFIAction) -> (r: Result<(), LifetimeError>)
    ensures
        r is Ok <==> lifetime_allows(gc_info, action),
        r matches Err(e) ==> e.required@ == required_states(action) && e.action == action
            && e.actual == gc_info && e.extra_info is None,
{
    let ok = match action {
        FFIAction::Copy => match gc_info {
            GcInfo::Owned | GcInfo::SharedWithHost | GcInfo::MutSharedWithHost
            | GcInfo::OnStack => true,
            _ => false,
        },
        FFIAction::Share => match gc_info {
            GcInfo::Owned | GcInfo::SharedWithHost => true,
            _ => false,
        },
        FFIAction::MutShare => match gc_info {
            GcInfo::Owned | GcInfo::MutSharedWithHost => true,
            _ => false,
        },
        FFIAction::Move => match gc_info {
            GcInfo::Owned => true,
            _ => false,
        },
        FFIAction::Bypass => true,
    };
    if ok {
        Ok(())
    } else {
        Err(LifetimeError::new(required_lifetimes(action), action, gc_info))
    }
}

/// The state an accepted transfer puts the object in while the host call runs.
pub open spec fn tentative_state(s: GcInfo, action: FFIAction) -> GcInfo {
    match action {
        FFIAction::Share => GcInfo::SharedWithHost,
        FFIAction::MutShare => GcInfo::MutSharedWithHost,
        FFIAction::Move => GcInfo::MovedToHost,
        _ => s,
    }
}

/// Restores or finalises one value's lifecycle state around a host call.
#[derive(Clone, Copy, PartialEq, Eq, Structural, Debug)]
pub struct GcInfoGuard {
    pub target: Value,
    /// The state to set once the host call has returned.
    pub on_finish: Option<GcInfo>,
    /// The state to restore if the call is abandoned.
    pub on_yank: Option<GcInfo>,
}

/// `states` with the state of `target` set to `s`, when `target` is a heap reference.
pub open spec fn set_state(states: Seq<GcInfo>, target: Value, s: GcInfo) -> Seq<GcInfo> {
    match target {
        Value::Ptr(i) => states.update(i as int, s),
        _ => states,
    }
}

pub open spec fn guard_commit(states: Seq<GcInfo>, g: GcInfoGuard) -> Seq<GcInfo> {
    match g.on_finish {
        Some(s) => set_state(states, g.target, s),
        None => states,
    }
}

pub open spec fn guard_rollback(states: Seq<GcInfo>, g: GcInfoGuard) -> Seq<GcInfo> {
    match g.on_yank {
        Some(s) => set_state(states, g.target, s),
        None => states,
    }
}

/// Commits guards left to right.
pub open spec fn commit_all(states: Seq<GcInfo>, gs: Seq<GcInfoGuard>) -> Seq<GcInfo>
    decreases gs.len(),
{
    if gs.len() == 0 {
        states
    } else {
        guard_commit(commit_all(states, gs.drop_last()), gs.last())
    }
}

/// The state the last guard of `gs` on wrapper `t` finishes it in, if any guard does.
pub open spec fn last_finish(gs: Seq<GcInfoGuard>, t: int) -> Option<GcInfo>
    decreases gs.len(),
{
    if gs.len() == 0 {
        None
    } else if gs.last().target is Ptr && gs.last().target->Ptr_0 == t && gs.last().on_finish is Some {
        gs.last().on_finish
    } else {
        last_finish(gs.drop_last(), t)
    }
}

/// After committing, a wrapper is in the finish state of the last guard on it, or as it
/// was when no guard covers it.
pub proof fn lemma_commit_pointwise(x: Seq<GcInfo>, gs: Seq<GcInfoGuard>)
    requires
        forall|k: int| 0 <= k < gs.len() && (#[trigger] gs[k]).target is Ptr ==> gs[k].target->Ptr_0 < x.len(),
    ensures
        commit_all(x, gs).len() == x.len(),
        forall|t: int|
            0 <= t < x.len() ==> #[trigger] commit_all(x, gs)[t] == match last_finish(gs, t) {
                Some(c) => c,
                None => x[t],
            },
    decreases gs.len(),
{
    if gs.len() > 0 {
        let init = gs.drop_last();
        assert forall|k: int| 0 <= k < init.len() && (#[trigger] init[k]).target is Ptr implies init[k].target->Ptr_0 < x.len() by {
            assert(init[k] == gs[k]);
        }
        lemma_commit_pointwise(x, init);
        assert(gs.last() == gs[gs.len() - 1]);
    }
}

/// Rolls guards back right to left.
pub open spec fn rollback_all(states: Seq<GcInfo>, gs: Seq<GcInfoGuard>) -> Seq<GcInfo>
    decreases gs.len(),
{
    if gs.len() == 0 {
        states
    } else {
        rollback_all(guard_rollback(states, gs.last()), gs.drop_last())
    }
}

impl GcInfoGuard {
    pub fn new(target: Value, on_finish: GcInfo, on_yank: GcInfo) -> (r: GcInfoGuard)
        ensures
            r == (GcInfoGuard { target, on_finish: Some(on_finish), on_yank: Some(on_yank) }),
    {
        GcInfoGuard { target, on_finish: Some(on_finish), on_yank: Some(on_yank) }
    }

    /// A guard that changes nothing.
    pub fn no_action(target: Value) -> (r: GcInfoGuard)
        ensures
            r == (GcInfoGuard { target, on_finish: None, on_yank: None }),
    {
        GcInfoGuard { target, on_finish: None, on_yank: None }
    }

    /// Applies the on-finish state and disables rollback.
    pub fn finish(&mut self, heap: &mut Heap)
        requires
            old(heap).valid_value(old(self).target),
        ensures
            final(heap).states() == guard_commit(old(heap).states(), *old(self)),
            final(heap).same_objects(old(heap)),
            final(self).on_yank is None,
            final(self).target == old(self).target,
            final(self).on_finish == old(self).on_finish,
    {
        if let Some(s) = self.on_finish {
            heap.set_gc_info(self.target, s);
        }
        self.on_yank = None;
    }

    /// Restores the on-yank state.
    pub fn yank(&self, heap: &mut Heap)
        requires
            old(heap).valid_value(self.target),
        ensures
            final(heap).states() == guard_rollback(old(heap).states(), *self),
            final(heap).same_objects(old(heap)),
    {
        if let Some(s) = self.on_yank {
            heap.set_gc_info(self.target, s);
        }
    }
}

/// Why a parameter was refused.
#[derive(Clone, Copy, PartialEq, Eq, Structural, Debug)]
pub enum ParamFailure {
    Null,
    Type,
    Lifetime,
}

/// The refusal of `v` for parameter `p`, if any, with wrapper plans from `h` and lifecycle
/// states `states`: null first, then the type, then the lifecycle state.
pub open spec fn param_failure(h: Heap, states: Seq<GcInfo>, v: Value, p: ParamSpec) -> Option<
    ParamFailure,
> {
    if v is Null {
        if p.nullable {
            None
        } else {
            Some(ParamFailure::Null)
        }
    } else if !(p.action is Bypass) && !plan_matches(h.value_plan(v), p.tyck_info) {
        Some(ParamFailure::Type)
    } else if !lifetime_allows(value_gc_info(states, v), p.action) {
        Some(ParamFailure::Lifetime)
    } else {
        None
    }
}

/// The guard built for an accepted parameter, given the value's state before any guard
/// of the call (`prior`): a copy or a share ends in that state again, a move ends moved,
/// and an abandoned call restores the state the guard found.
pub open spec fn param_guard(states: Seq<GcInfo>, v: Value, p: ParamSpec, prior: GcInfo) -> GcInfoGuard {
    let s = value_gc_info(states, v);
    if v is Null {
        GcInfoGuard { target: v, on_finish: None, on_yank: None }
    } else {
        match p.action {
            FFIAction::Bypass => GcInfoGuard { target: v, on_finish: None, on_yank: None },
            FFIAction::Move => GcInfoGuard {
                target: v,
                on_finish: Some(GcInfo::MovedToHost),
                on_yank: Some(s),
            },
            _ => GcInfoGuard { target: v, on_finish: Some(prior), on_yank: Some(s) },
        }
    }
}

/// The states once the guard of an accepted parameter has been built.
pub open spec fn param_states(states: Seq<GcInfo>, v: Value, p: ParamSpec) -> Seq<GcInfo> {
    if v is Null {
        states
    } else {
        set_state(states, v, tentative_state(value_gc_info(states, v), p.action))
    }
}

/// Whether `e` is the error reported for refusal `f` of `v` for `p`.
pub open spec fn reports(
    e: TError,
    f: ParamFailure,
    h: Heap,
    states: Seq<GcInfo>,
    v: Value,
    p: ParamSpec,
) -> bool {
    match f {
        ParamFailure::Null => e is NullError,
        ParamFailure::Type => e is TypeError && e->TypeError_0.required == plan_type_id(p.tyck_info)
            && e->TypeError_0.actual == plan_type_id(h.value_plan(v)),
        ParamFailure::Lifetime => e is LifetimeError && e->LifetimeError_0.action == p.action
            && e->LifetimeError_0.actual == value_gc_info(states, v)
            && e->LifetimeError_0.required@ == required_states(p.action),
    }
}

/// Marshaling of the first `n` parameters: the states after their guards, the guards, and
/// the first refusal with its position. Stops at the first refusal.
pub open spec fn marshal_prefix(
    h: Heap,
    states: Seq<GcInfo>,
    args: Seq<Value>,
    specs: Seq<ParamSpec>,
    n: nat,
) -> (Seq<GcInfo>, Seq<GcInfoGuard>, Option<(nat, ParamFailure)>)
    decreases n,
{
    if n == 0 {
        (states, Seq::empty(), None)
    } else {
        let (s, gs, f) = marshal_prefix(h, states, args, specs, (n - 1) as nat);
        if f is Some {
            (s, gs, f)
        } else {
            let v = args[n - 1];
            let p = specs[n - 1];
            match param_failure(h, s, v, p) {
                Some(k) => (s, gs, Some(((n - 1) as nat, k))),
                None => (
                    param_states(s, v, p),
                    gs.push(param_guard(s, v, p, value_gc_info(states, v))),
                    None,
                ),
            }
        }
    }
}

/// Checks one parameter, applies its tentative state and returns its guard; `prior` is
/// the value's state before the first guard of the call.
pub fn check_param(heap: &mut Heap, v: Value, p: &ParamSpec, prior: GcInfo) -> (r: Result<
    GcInfoGuard,
    TError,
>)
    requires
        old(heap).valid_value(v),
    ensures
        final(heap).same_objects(old(heap)),
        match r {
            Ok(g) => {
                &&& param_failure(*old(heap), old(heap).states(), v, *p) is None
                &&& g == param_guard(old(heap).states(), v, *p, prior)
                &&& final(heap).states() == param_states(old(heap).states(), v, *p)
            },
            Err(e) => {
                &&& param_failure(*old(heap), old(heap).states(), v, *p) matches Some(f)
                &&& reports(e, f, *old(heap), old(heap).states(), v, *p)
                &&& final(heap).states() == old(heap).states()
            },
        },
{
    if v.is_null() {
        if p.nullable {
            return Ok(GcInfoGuard::no_action(v));
        } else {
            return Err(TError::NullError(NullError()));
        }
    }
    let bypass = match p.action {
        FFIAction::Bypass => true,
        _ => false,
    };
    if !bypass && !heap.value_tyck(v, &p.tyck_info) {
        let required = match &p.tyck_info {
            TypeCheckInfo::SimpleType(t) => *t,
            TypeCheckInfo::Container(c, _) => *c,
            TypeCheckInfo::Bypass => 0,
        };
        return Err(TError::TypeError(TypeError::new(required, heap.type_id_of(v))));
    }
    let actual = heap.gc_info(v);
    match lifetime_check(actual, p.action) {
        Err(e) => Err(TError::LifetimeError(e)),
        Ok(()) => match p.action {
            FFIAction::Share => {
                heap.set_gc_info(v, GcInfo::SharedWithHost);
                Ok(GcInfoGuard::new(v, prior, actual))
            },
            FFIAction::MutShare => {
                heap.set_gc_info(v, GcInfo::MutSharedWithHost);
                Ok(GcInfoGuard::new(v, prior, actual))
            },
            FFIAction::Move => {
                heap.set_gc_info(v, GcInfo::MovedToHost);
                Ok(GcInfoGuard::new(v, GcInfo::MovedToHost, actual))
            },
            FFIAction::Copy => Ok(GcInfoGuard::new(v, prior, actual)),
            FFIAction::Bypass => Ok(GcInfoGuard::no_action(v)),
        },
    }
}

proof fn lemma_rollback_after_param(
    states: Seq<GcInfo>,
    gs: Seq<GcInfoGuard>,
    v: Value,
    p: ParamSpec,
    prior: GcInfo,
)
    requires
        v is Ptr ==> v->Ptr_0 < states.len(),
    ensures
        rollback_all(param_states(states, v, p), gs.push(param_guard(states, v, p, prior)))
            == rollback_all(states, gs),
{
    let g = param_guard(states, v, p, prior);
    let t = param_states(states, v, p);
    assert(gs.push(g).drop_last() =~= gs);
    if let Value::Ptr(i) = v {
        assert(guard_rollback(t, g) =~= states);
    }
}

proof fn lemma_prefix_stops(
    h: Heap,
    states: Seq<GcInfo>,
    args: Seq<Value>,
    specs: Seq<ParamSpec>,
    n: nat,
    m: nat,
)
    requires
        n <= m,
        marshal_prefix(h, states, args, specs, n).2 is Some,
    ensures
        marshal_prefix(h, states, args, specs, m) == marshal_prefix(h, states, args, specs, n),
    decreases m - n,
{
    if n < m {
        lemma_prefix_stops(h, states, args, specs, n, (m - 1) as nat);
    }
}

/// Builds the guards of all parameters left to right. If one is refused, the guards
/// already built roll back in reverse order and its error is returned: either every
/// tentative state applies or none does.
pub fn marshal_args(heap: &mut Heap, args: &Vec<Value>, specs: &Vec<ParamSpec>) -> (r: Result<
    Vec<GcInfoGuard>,
    TError,
>)
    requires
        args@.len() == specs@.len(),
        forall|j: int| 0 <= j < args@.len() ==> old(heap).valid_value(#[trigger] args@[j]),
    ensures
        final(heap).same_objects(old(heap)),
        ({
            let m = marshal_prefix(*old(heap), old(heap).states(), args@, specs@, args@.len());
            match r {
                Ok(gs) => {
                    &&& m.2 is None
                    &&& gs@ == m.1
                    &&& final(heap).states() == m.0
                    &&& gs@.len() == args@.len()
                    &&& forall|j: int| 0 <= j < args@.len() ==> (#[trigger] gs@[j]).target == args@[j]
                },
                Err(e) => {
                    &&& m.2 matches Some((i, f))
                    &&& reports(
                        e,
                        f,
                        *old(heap),
                        marshal_prefix(*old(heap), old(heap).states(), args@, specs@, i).0,
                        args@[i as int],
                        specs@[i as int],
                    )
                    &&& final(heap).states() == old(heap).states()
                },
            }
        }),
{
    let ghost h0 = *heap;
    let ghost s0 = heap.states();
    let mut priors: Vec<GcInfo> = Vec::new();
    let mut i: usize = 0;
    while i < args.len()
        invariant
            0 <= i <= args@.len(),
            *heap == *old(heap),
            s0 == old(heap).states(),
            forall|j: int| 0 <= j < args@.len() ==> old(heap).valid_value(#[trigger] args@[j]),
            priors@.len() == i,
            forall|j: int| 0 <= j < i ==> #[trigger] priors@[j] == value_gc_info(s0, args@[j]),
        decreases args.len() - i,
    {
        priors.push(heap.gc_info(args[i]));
        i = i + 1;
    }
    let mut guards: Vec<GcInfoGuard> = Vec::new();
    let mut i: usize = 0;
    while i < args.len()
        invariant
            priors@.len() == args@.len(),
            forall|j: int| 0 <= j < args@.len() ==> #[trigger] priors@[j] == value_gc_info(s0, args@[j]),
            args@.len() == specs@.len(),
            0 <= i <= args@.len(),
            h0 == *old(heap),
            s0 == old(heap).states(),
            heap.same_objects(&h0),
            forall|j: int| 0 <= j < args@.len() ==> h0.valid_value(#[trigger] args@[j]),
            marshal_prefix(h0, s0, args@, specs@, i as nat) == (
                heap.states(),
                guards@,
                None::<(nat, ParamFailure)>,
            ),
            rollback_all(heap.states(), guards@) == s0,
            forall|j: int| 0 <= j < guards@.len() ==> h0.valid_value(#[trigger] guards@[j].target),
            guards@.len() == i,
            forall|j: int| 0 <= j < i ==> (#[trigger] guards@[j]).target == args@[j],
            s0.len() == h0.wrappers@.len(),
        decreases args.len() - i,
    {
        let v = args[i];
        let ghost s = heap.states();
        let ghost hb = *heap;
        assert(h0.valid_value(args@[i as int]));
        assert(v is Ptr ==> hb.wrappers@[v->Ptr_0 as int].tyck_info == h0.wrappers@[v->Ptr_0 as int].tyck_info);
        assert(hb.value_plan(v) == h0.value_plan(v));
        match check_param(heap, v, &specs[i], priors[i]) {
            Ok(g) => {
                proof {
                    lemma_rollback_after_param(s, guards@, v, specs@[i as int], priors@[i as int]);
                }
                guards.push(g);
            },
            Err(e) => {
                assert(marshal_prefix(h0, s0, args@, specs@, (i + 1) as nat).2 is Some);
                proof {
                    lemma_prefix_stops(h0, s0, args@, specs@, (i + 1) as nat, args@.len());
                }
                let mut k = guards.len();
                assert(guards@.subrange(0, k as int) =~= guards@);
                while k > 0
                    invariant
                        0 <= k <= guards@.len(),
                        h0 == *old(heap),
                        heap.same_objects(&h0),
                        rollback_all(heap.states(), guards@.subrange(0, k as int)) == s0,
                        forall|j: int|
                            0 <= j < guards@.len() ==> h0.valid_value(#[trigger] guards@[j].target),
                        s0.len() == h0.wrappers@.len(),
                    decreases k,
                {
                    k = k - 1;
                    assert(guards@.subrange(0, k + 1).drop_last() =~= guards@.subrange(0, k as int));
                    assert(h0.valid_value(guards@[k as int].target));
                    guards[k].yank(heap);
                }
                return Err(e);
            },
        }
        i = i + 1;
    }
    Ok(guards)
}

/// Commits guards left to right after the host routine has returned.
pub fn commit_guards(heap: &mut Heap, guards: &Vec<GcInfoGuard>)
    requires
        forall|j: int| 0 <= j < guards@.len() ==> old(heap).valid_value(#[trigger] guards@[j].target),
    ensures
        final(heap).states() == commit_all(old(heap).states(), guards@),
        final(heap).same_objects(old(heap)),
{
    let ghost h0 = *heap;
    let mut i: usize = 0;
    assert(guards@.subrange(0, 0) =~= Seq::<GcInfoGuard>::empty());
    while i < guards.len()
        invariant
            0 <= i <= guards@.len(),
            h0 == *old(heap),
            heap.same_objects(&h0),
            heap.states() == commit_all(h0.states(), guards@.subrange(0, i as int)),
            forall|j: int| 0 <= j < guards@.len() ==> h0.valid_value(#[trigger] guards@[j].target),
        decreases guards.len() - i,
    {
        let mut g = guards[i];
        assert(guards@.subrange(0, i + 1).drop_last() =~= guards@.subrange(0, i as int));
        assert(h0.valid_value(guards@[i as int].target));
        g.finish(heap);
        i = i + 1;
    }
    assert(guards@.subrange(0, guards@.len() as int) =~= guards@);
}

/// A value as the host sees it, in either direction.
#[derive(Debug)]
pub enum HostValue {
    /// Null passed where an option is expected.
    Absent,
    Int(i64),
    Char(char),
    Bool(bool),
    /// An object handed over by value: moved or copied out of a wrapper, or returned.
    Object(Payload),
    /// A shared borrow of the wrapper with this index.
    Shared(usize),
    /// A mutable borrow of the wrapper with this index.
    MutShared(usize),
    /// The opaque value, passed through.
    Raw(Value),
}

/// How an inline primitive is handed to the host.
pub open spec fn inline_to_host(v: Value) -> HostValue {
    match v {
        Value::Int(i) => HostValue::Int(i),
        Value::Char(c) => HostValue::Char(c),
        Value::Bool(b) => HostValue::Bool(b),
        Value::Null => HostValue::Absent,
        _ => HostValue::Raw(v),
    }
}

/// The value a primitive host result becomes.
pub open spec fn host_to_inline(h: HostValue) -> Value {
    match h {
        HostValue::Int(i) => Value::Int(i),
        HostValue::Char(c) => Value::Char(c),
        HostValue::Bool(b) => Value::Bool(b),
        HostValue::Raw(v) => v,
        _ => Value::Null,
    }
}

/// Handing an inline primitive to the host and taking it back gives the same value.
pub proof fn lemma_inline_round_trip(v: Value)
    requires
        v.spec_is_value(),
    ensures
        host_to_inline(inline_to_host(v)) == v,
{
}

impl Payload {
    pub fn duplicate(&self) -> (r: Payload)
        ensures
            r == *self,
    {
        match self {
            Payload::Empty => Payload::Empty,
            Payload::Int(i) => Payload::Int(*i),
            Payload::Char(c) => Payload::Char(*c),
            Payload::Bool(b) => Payload::Bool(*b),
            Payload::Text(s) => Payload::Text(s.clone()),
            Payload::Handle(h) => Payload::Handle(*h),
        }
    }
}

/// Converts an accepted argument for the host: null becomes absent, a pass-through stays
/// as it is, a primitive is copied, and a heap object is moved out, copied, or lent by
/// index according to the action.
pub fn to_host(heap: &mut Heap, v: Value, action: FFIAction) -> (r: HostValue)
    requires
        old(heap).valid_value(v),
    ensures
        final(heap).states() == old(heap).states(),
        final(heap).wrappers@.len() == old(heap).wrappers@.len(),
        action is Bypass ==> r == HostValue::Raw(v),
        !(action is Bypass) && !(v is Ptr) ==> r == inline_to_host(v),
        !(action is Bypass) && v is Ptr ==> r == (match action {
            FFIAction::Share => HostValue::Shared(v->Ptr_0),
            FFIAction::MutShare => HostValue::MutShared(v->Ptr_0),
            _ => HostValue::Object(old(heap).wrappers@[v->Ptr_0 as int].payload),
        }),
        action is Move && v is Ptr ==> final(heap).wrappers@[v->Ptr_0 as int].payload
            == Payload::Empty,
        forall|i: int|
            0 <= i < old(heap).wrappers@.len() && !(action is Move && v is Ptr && v->Ptr_0 == i)
                ==> #[trigger] final(heap).wrappers@[i] == old(heap).wrappers@[i],
        forall|i: int|
            0 <= i < old(heap).wrappers@.len() ==> (#[trigger] final(heap).wrappers@[i]).tyck_info
                == old(heap).wrappers@[i].tyck_info,
        !(action is Move && v is Ptr) ==> *final(heap) == *old(heap),
{
    if let FFIAction::Bypass = action {
        return HostValue::Raw(v);
    }
    match v {
        Value::Null => HostValue::Absent,
        Value::Int(i) => HostValue::Int(i),
        Value::Char(c) => HostValue::Char(c),
        Value::Bool(b) => HostValue::Bool(b),
        Value::Ptr(i) => match action {
            FFIAction::Share => HostValue::Shared(i),
            FFIAction::MutShare => HostValue::MutShared(i),
            FFIAction::Move => HostValue::Object(heap.take_payload(i)),
            _ => HostValue::Object(heap.get(i).payload.duplicate()),
        },
    }
}

/// The value a host result becomes on a heap of `n` wrappers: primitives become inline
/// values, a returned object the new wrapper at index `n`, and a borrow or pass-through
/// must name a live wrapper.
pub open spec fn returned_value(h: HostValue, n: nat) -> Option<Value> {
    match h {
        HostValue::Raw(v) => if v is Ptr && v->Ptr_0 >= n {
            None
        } else {
            Some(v)
        },
        HostValue::Shared(i) | HostValue::MutShared(i) => if i < n {
            Some(Value::Ptr(i))
        } else {
            None
        },
        HostValue::Object(_) => Some(Value::Ptr(n as usize)),
        _ => Some(host_to_inline(h)),
    }
}

/// The state of a wrapper allocated for a returned object.
pub open spec fn returned_state(action: FFIAction) -> GcInfo {
    match action {
        FFIAction::Share => GcInfo::SharedWithHost,
        FFIAction::MutShare => GcInfo::MutSharedWithHost,
        _ => GcInfo::Owned,
    }
}

/// `after` is `before` with one wrapper pushed for the returned payload `p`.
pub open spec fn returned_object(before: Heap, after: Heap, p: Payload, ret: ReturnSpec) -> bool {
    let n = before.wrappers@.len();
    &&& after.wrappers@.len() == n + 1
    &&& after.wrappers@.subrange(0, n as int) == before.wrappers@
    &&& after.wrappers@[n as int].gc_info == returned_state(ret.action)
    &&& after.wrappers@[n as int].payload == p
    &&& same_plan(after.wrappers@[n as int].tyck_info, ret.tyck_info)
}

/// Takes back the host's result: primitives become inline values, a returned object is
/// allocated on the guest heap (as a shared wrapper when the host returned a reference),
/// and a borrow or pass-through must name a live wrapper.
pub fn from_host(heap: &mut Heap, h: HostValue, ret: &ReturnSpec) -> (r: Result<Value, TError>)
    ensures
        r is Ok <==> returned_value(h, old(heap).wrappers@.len()) is Some,
        r matches Ok(v) ==> returned_value(h, old(heap).wrappers@.len()) == Some(v),
        r matches Ok(v) ==> final(heap).valid_value(v),
        r matches Err(e) ==> e is UncheckedException,
        h is Object ==> returned_object(*old(heap), *final(heap), h->Object_0, *ret),
        !(h is Object) ==> final(heap).wrappers@ == old(heap).wrappers@,
        final(heap).states().subrange(0, old(heap).wrappers@.len() as int) == old(heap).states(),
{
    let ghost s0 = heap.states();
    let ghost hg = h;
    let r = match h {
        HostValue::Absent => Ok(Value::Null),
        HostValue::Int(i) => Ok(Value::Int(i)),
        HostValue::Char(c) => Ok(Value::Char(c)),
        HostValue::Bool(b) => Ok(Value::Bool(b)),
        HostValue::Raw(v) => {
            let ok = match v {
                Value::Ptr(i) => i < heap.len(),
                _ => true,
            };
            if ok {
                Ok(v)
            } else {
                Err(TError::unchecked_exception("host returned a dangling reference".to_string()))
            }
        },
        HostValue::Shared(i) | HostValue::MutShared(i) => {
            if i < heap.len() {
                Ok(Value::Ptr(i))
            } else {
                Err(TError::unchecked_exception("host returned a dangling reference".to_string()))
            }
        },
        HostValue::Object(p) => {
            let plan = ret.tyck_info.duplicate();
            let w = match ret.action {
                FFIAction::Share => Wrapper::shared(p, plan),
                FFIAction::MutShare => Wrapper::mut_shared(p, plan),
                _ => Wrapper::owned(p, plan),
            };
            Ok(heap.allocate(w))
        },
    };
    assert(heap.states().subrange(0, s0.len() as int) =~= s0);
    proof {
        if hg is Object {
            assert(heap.wrappers@.subrange(0, s0.len() as int) =~= old(heap).wrappers@);
        }
    }
    r
}

/// Finishes a host call: commits the guards, then surfaces a host error as a user
/// exception, or takes the result back.
pub fn finish_call(
    heap: &mut Heap,
    guards: &Vec<GcInfoGuard>,
    result: Result<HostValue, UserException>,
    ret: &ReturnSpec,
) -> (r: Result<Value, TError>)
    requires
        forall|j: int| 0 <= j < guards@.len() ==> old(heap).valid_value(#[trigger] guards@[j].target),
    ensures
        final(heap).states().subrange(0, old(heap).wrappers@.len() as int) == commit_all(
            old(heap).states(),
            guards@,
        ),
        forall|t: int|
            0 <= t < old(heap).wrappers@.len() && #[trigger] last_finish(guards@, t) is Some
                ==> final(heap).states()[t] == last_finish(guards@, t)->Some_0,
        result matches Err(e) ==> r == Err::<Value, TError>(TError::UserException(e)),
        result matches Ok(h) ==> {
            &&& r is Ok <==> returned_value(h, old(heap).wrappers@.len()) is Some
            &&& r matches Ok(v) ==> returned_value(h, old(heap).wrappers@.len()) == Some(v)
            &&& final(heap).wrappers@.len() == old(heap).wrappers@.len() + if h is Object {
                1nat
            } else {
                0nat
            }
            &&& forall|i: int|
                0 <= i < old(heap).wrappers@.len() ==> (#[trigger] final(heap).wrappers@[i]).payload
                    == old(heap).wrappers@[i].payload && final(heap).wrappers@[i].tyck_info
                    == old(heap).wrappers@[i].tyck_info
            &&& h matches HostValue::Object(p) ==> {
                let n = old(heap).wrappers@.len();
                &&& final(heap).wrappers@[n as int].gc_info == returned_state(ret.action)
                &&& final(heap).wrappers@[n as int].payload == p
                &&& same_plan(final(heap).wrappers@[n as int].tyck_info, ret.tyck_info)
            }
        },
        r matches Ok(v) ==> final(heap).valid_value(v),
        r matches Err(e) ==> e is UserException || e is UncheckedException,
{
    commit_guards(heap, guards);
    proof {
        assert forall|k: int|
            0 <= k < guards@.len() && (#[trigger] guards@[k]).target is Ptr implies guards@[k].target->Ptr_0
            < old(heap).states().len() by {
            assert(old(heap).valid_value(guards@[k].target));
        }
        lemma_commit_pointwise(old(heap).states(), guards@);
    }
    let ghost mid = *heap;
    match result {
        Err(e) => Err(TError::UserException(e)),
        Ok(h) => {
            let ghost hg = h;
            let r = from_host(heap, h, ret);
            proof {
                let n = mid.wrappers@.len() as int;
                assert forall|i: int| 0 <= i < n implies (#[trigger] heap.wrappers@[i]).payload
                    == mid.wrappers@[i].payload && heap.wrappers@[i].tyck_info
                    == mid.wrappers@[i].tyck_info && heap.states()[i] == mid.states()[i] by {
                    if hg is Object {
                        assert(heap.wrappers@.subrange(0, n)[i] == heap.wrappers@[i]);
                    }
                    assert(heap.states().subrange(0, n)[i] == heap.states()[i]);
                }
                assert(heap.states().subrange(0, n) =~= mid.states());
            }
            r
        },
    }
}

/// No parameter is moved to the host.
pub open spec fn no_move(specs: Seq<ParamSpec>) -> bool {
    forall|j: int| 0 <= j < specs.len() ==> !((#[trigger] specs[j]).action is Move)
}

proof fn lemma_prefix_restores(
    h: Heap,
    states: Seq<GcInfo>,
    args: Seq<Value>,
    specs: Seq<ParamSpec>,
    n: nat,
)
    requires
        n <= args.len(),
        args.len() == specs.len(),
        no_move(specs),
        marshal_prefix(h, states, args, specs, n).2 is None,
    ensures
        ({
            let gs = marshal_prefix(h, states, args, specs, n).1;
            &&& forall|t: int| #[trigger] last_finish(gs, t) is Some ==> last_finish(gs, t)->Some_0 == states[t]
            &&& forall|k: int|
                0 <= k < n && (#[trigger] args[k]) is Ptr && !(specs[k].action is Bypass)
                    ==> last_finish(gs, args[k]->Ptr_0 as int) == Some(states[args[k]->Ptr_0 as int])
        }),
    decreases n,
{
    if n > 0 {
        let n1 = (n - 1) as nat;
        lemma_prefix_restores(h, states, args, specs, n1);
        let prev = marshal_prefix(h, states, args, specs, n1);
        let gs = marshal_prefix(h, states, args, specs, n).1;
        let v = args[n1 as int];
        let p = specs[n1 as int];
        assert(!(p.action is Move));
        let g = param_guard(prev.0, v, p, value_gc_info(states, v));
        assert(gs == prev.1.push(g));
        assert(gs.drop_last() =~= prev.1);
        assert forall|t: int| #[trigger] last_finish(gs, t) is Some implies last_finish(gs, t)->Some_0 == states[t] by {
            if !(g.target is Ptr && g.target->Ptr_0 == t && g.on_finish is Some) {
                assert(last_finish(gs, t) == last_finish(prev.1, t));
            }
        }
        assert forall|k: int|
            0 <= k < n && (#[trigger] args[k]) is Ptr && !(specs[k].action is Bypass) implies last_finish(
            gs,
            args[k]->Ptr_0 as int,
        ) == Some(states[args[k]->Ptr_0 as int]) by {
            let t = args[k]->Ptr_0 as int;
            if !(g.target is Ptr && g.target->Ptr_0 == t && g.on_finish is Some) {
                assert(last_finish(gs, t) == last_finish(prev.1, t));
            }
        }
    }
}

/// After a host call whose parameters were all accepted and none moved, committing the
/// guards finishes every wrapper that a checked parameter references in the state it had
/// before the call, and no guard finishes any wrapper in another state.
pub proof fn lemma_successful_call_restores_states(
    h: Heap,
    states: Seq<GcInfo>,
    args: Seq<Value>,
    specs: Seq<ParamSpec>,
)
    requires
        args.len() == specs.len(),
        no_move(specs),
        marshal_prefix(h, states, args, specs, args.len()).2 is None,
    ensures
        ({
            let gs = marshal_prefix(h, states, args, specs, args.len()).1;
            &&& forall|t: int| #[trigger] last_finish(gs, t) is Some ==> last_finish(gs, t)->Some_0 == states[t]
            &&& forall|k: int|
                0 <= k < args.len() && (#[trigger] args[k]) is Ptr && !(specs[k].action is Bypass)
                    ==> last_finish(gs, args[k]->Ptr_0 as int) == Some(states[args[k]->Ptr_0 as int])
        }),
{
    lemma_prefix_restores(h, states, args, specs, args.len());
}

proof fn lemma_prefix_moves(
    h: Heap,
    states: Seq<GcInfo>,
    args: Seq<Value>,
    specs: Seq<ParamSpec>,
    n: nat,
)
    requires
        n <= args.len(),
        args.len() == specs.len(),
        forall|j: int| 0 <= j < args.len() && (#[trigger] args[j]) is Ptr ==> args[j]->Ptr_0 < states.len(),
        marshal_prefix(h, states, args, specs, n).2 is None,
    ensures
        ({
            let m = marshal_prefix(h, states, args, specs, n);
            &&& m.0.len() == states.len()
            &&& forall|t: int|
                0 <= t < states.len() && (#[trigger] last_finish(m.1, t) == Some(GcInfo::MovedToHost)
                    || states[t] == GcInfo::MovedToHost) ==> m.0[t] == GcInfo::MovedToHost
            &&& forall|k: int|
                0 <= k < n && (#[trigger] args[k]) is Ptr && specs[k].action is Move ==> last_finish(
                    m.1,
                    args[k]->Ptr_0 as int,
                ) == Some(GcInfo::MovedToHost)
        }),
    decreases n,
{
    if n > 0 {
        let n1 = (n - 1) as nat;
        lemma_prefix_moves(h, states, args, specs, n1);
        let prev = marshal_prefix(h, states, args, specs, n1);
        let m = marshal_prefix(h, states, args, specs, n);
        let v = args[n1 as int];
        let p = specs[n1 as int];
        let g = param_guard(prev.0, v, p, value_gc_info(states, v));
        assert(m.1 == prev.1.push(g));
        assert(m.1.drop_last() =~= prev.1);
        assert forall|t: int|
            0 <= t < states.len() && (#[trigger] last_finish(m.1, t) == Some(GcInfo::MovedToHost)
                || states[t] == GcInfo::MovedToHost) implies m.0[t] == GcInfo::MovedToHost by {
            if !(g.target is Ptr && g.target->Ptr_0 == t && g.on_finish is Some) {
                assert(last_finish(m.1, t) == last_finish(prev.1, t));
            }
        }
        assert forall|k: int|
            0 <= k < n && (#[trigger] args[k]) is Ptr && specs[k].action is Move implies last_finish(
            m.1,
            args[k]->Ptr_0 as int,
        ) == Some(GcInfo::MovedToHost) by {
            let t = args[k]->Ptr_0 as int;
            if !(g.target is Ptr && g.target->Ptr_0 == t && g.on_finish is Some) {
                assert(last_finish(m.1, t) == last_finish(prev.1, t));
            }
        }
    }
}

/// After a host call whose parameters were all accepted, committing the guards leaves
/// every wrapper that a parameter moved in the moved state.
pub proof fn lemma_moved_stays_moved(
    h: Heap,
    states: Seq<GcInfo>,
    args: Seq<Value>,
    specs: Seq<ParamSpec>,
)
    requires
        args.len() == specs.len(),
        forall|j: int| 0 <= j < args.len() && (#[trigger] args[j]) is Ptr ==> args[j]->Ptr_0 < states.len(),
        marshal_prefix(h, states, args, specs, args.len()).2 is None,
    ensures
        forall|k: int|
            0 <= k < args.len() && (#[trigger] args[k]) is Ptr && specs[k].action is Move
                ==> last_finish(
                marshal_prefix(h, states, args, specs, args.len()).1,
                args[k]->Ptr_0 as int,
            ) == Some(GcInfo::MovedToHost),
{
    lemma_prefix_moves(h, states, args, specs, args.len());
}

/// An owned object shared with the host is owned again once the call commits; one moved
/// to the host stays moved.
pub proof fn lemma_share_returns_move_does_not(states: Seq<GcInfo>, i: usize, p: ParamSpec)
    requires
        i < states.len(),
        states[i as int] == GcInfo::Owned,
    ensures
        p.action is Share || p.action is MutShare ==> guard_commit(
            param_states(states, Value::Ptr(i), p),
            param_guard(states, Value::Ptr(i), p, GcInfo::Owned),
        )[i as int] == GcInfo::Owned,
        p.action is Move ==> guard_commit(
            param_states(states, Value::Ptr(i), p),
            param_guard(states, Value::Ptr(i), p, GcInfo::Owned),
        )[i as int] == GcInfo::MovedToHost,
{
}

/// The lifecycle states exclude one another: an object shared with the host cannot be
/// mutably shared or moved, one mutably shared cannot be shared or moved, only an owned
/// object can be moved, and each accepted transfer leaves the object in one state.
pub proof fn lemma_lifecycle_exclusive(s: GcInfo, action: FFIAction)
    ensures
        lifetime_allows(s, FFIAction::Move) ==> s is Owned,
        s is SharedWithHost ==> !lifetime_allows(s, FFIAction::MutShare) && !lifetime_allows(
            s,
            FFIAction::Move,
        ),
        s is MutSharedWithHost ==> !lifetime_allows(s, FFIAction::Share) && !lifetime_allows(
            s,
            FFIAction::Move,
        ),
        s is MovedToHost ==> !lifetime_allows(s, action) || action is Bypass,
        lifetime_allows(s, action) && (action is Share) ==> tentative_state(s, action)
            is SharedWithHost,
        lifetime_allows(s, action) && (action is MutShare) ==> tentative_state(s, action)
            is MutSharedWithHost,
{
}

/// A wrapper mutably shared with the host cannot also be shared, and one shared cannot be
/// mutably shared: a parameter of the right type is refused for its lifecycle state, so
/// `check_param` reports a lifetime error naming the attempted action and the actual
/// state, and changes no state.
pub proof fn lemma_share_conflict_refused(h: Heap, states: Seq<GcInfo>, v: Value, p: ParamSpec)
    requires
        v is Ptr,
        v->Ptr_0 < states.len(),
        plan_matches(h.value_plan(v), p.tyck_info),
        (p.action is Share && states[v->Ptr_0 as int] is MutSharedWithHost) || (p.action is MutShare
            && states[v->Ptr_0 as int] is SharedWithHost),
    ensures
        param_failure(h, states, v, p) == Some(ParamFailure::Lifetime),
{
}

/// What a checked argument becomes for the host, taken from heap `h` as it was before any
/// argument was converted.
pub open spec fn host_arg(h: Heap, v: Value, action: FFIAction) -> HostValue {
    if action is Bypass {
        HostValue::Raw(v)
    } else {
        match v {
            Value::Ptr(i) => match action {
                FFIAction::Share => HostValue::Shared(i),
                FFIAction::MutShare => HostValue::MutShared(i),
                _ => HostValue::Object(h.wrappers@[i as int].payload),
            },
            _ => inline_to_host(v),
        }
    }
}

proof fn lemma_prefix_ok_below(
    h: Heap,
    states: Seq<GcInfo>,
    args: Seq<Value>,
    specs: Seq<ParamSpec>,
    n: nat,
    m: nat,
)
    requires
        n <= m,
        marshal_prefix(h, states, args, specs, m).2 is None,
    ensures
        marshal_prefix(h, states, args, specs, n).2 is None,
{
    if marshal_prefix(h, states, args, specs, n).2 is Some {
        lemma_prefix_stops(h, states, args, specs, n, m);
    }
}

/// Once a parameter has moved a wrapper, a later parameter referencing the same wrapper is
/// accepted only as the opaque pass-through.
pub proof fn lemma_no_use_after_move(
    h: Heap,
    states: Seq<GcInfo>,
    args: Seq<Value>,
    specs: Seq<ParamSpec>,
    j: int,
    k: int,
)
    requires
        args.len() == specs.len(),
        forall|q: int| 0 <= q < args.len() && (#[trigger] args[q]) is Ptr ==> args[q]->Ptr_0 < states.len(),
        marshal_prefix(h, states, args, specs, args.len()).2 is None,
        0 <= j < k < args.len(),
        args[j] is Ptr,
        args[k] == args[j],
        specs[j].action is Move,
    ensures
        specs[k].action is Bypass,
{
    lemma_prefix_ok_below(h, states, args, specs, (k + 1) as nat, args.len());
    lemma_prefix_ok_below(h, states, args, specs, k as nat, args.len());
    lemma_prefix_moves(h, states, args, specs, k as nat);
    let t = args[j]->Ptr_0 as int;
    let mk = marshal_prefix(h, states, args, specs, k as nat);
    assert(last_finish(mk.1, t) == Some(GcInfo::MovedToHost));
    assert(mk.0[t] == GcInfo::MovedToHost);
    assert(param_failure(h, mk.0, args[k], specs[k]) is None);
}

/// Checks and guards the arguments of a host call and converts them for the host. A
/// refused argument gives its error with every lifecycle state as it was; otherwise the
/// guards and the tentative states are those of `marshal_prefix`, and the host receives,
/// for each argument, `host_arg` of the heap as it was.
pub fn prepare_call(heap: &mut Heap, info: &crate::program::HostFunctionInfo, args: &Vec<Value>) -> (r:
    Result<(Vec<GcInfoGuard>, Vec<HostValue>), TError>)
    requires
        args@.len() == info.params@.len(),
        forall|j: int| 0 <= j < args@.len() ==> old(heap).valid_value(#[trigger] args@[j]),
    ensures
        ({
            let m = marshal_prefix(*old(heap), old(heap).states(), args@, info.params@, args@.len());
            &&& m.2 matches Some((i, f)) ==> {
                &&& r matches Err(e) && reports(
                    e,
                    f,
                    *old(heap),
                    marshal_prefix(*old(heap), old(heap).states(), args@, info.params@, i).0,
                    args@[i as int],
                    info.params@[i as int],
                )
                &&& final(heap).states() == old(heap).states()
            }
            &&& m.2 is None ==> {
                &&& r is Ok
                &&& r->Ok_0.0@ == m.1
                &&& final(heap).states() == m.0
                &&& r->Ok_0.1@.len() == args@.len()
                &&& forall|k: int|
                    0 <= k < args@.len() ==> #[trigger] r->Ok_0.1@[k] == host_arg(
                        *old(heap),
                        args@[k],
                        info.params@[k].action,
                    )
            }
        }),
        final(heap).wrappers@.len() == old(heap).wrappers@.len(),
        forall|j: int|
            0 <= j < final(heap).wrappers@.len() ==> (#[trigger] final(heap).wrappers@[j]).tyck_info
                == old(heap).wrappers@[j].tyck_info,
        r matches Ok((gs, _)) ==> gs@.len() == args@.len() && forall|j: int|
            0 <= j < args@.len() ==> (#[trigger] gs@[j]).target == args@[j],
{
    let ghost h0 = *heap;
    let guards = match marshal_args(heap, args, &info.params) {
        Ok(g) => g,
        Err(e) => {
            return Err(e);
        },
    };
    let ghost h1 = *heap;
    proof {
        assert forall|q: int| 0 <= q < args@.len() && (#[trigger] args@[q]) is Ptr implies args@[q]->Ptr_0
            < h0.states().len() by {
            assert(h0.valid_value(args@[q]));
        }
    }
    let mut host_args: Vec<HostValue> = Vec::new();
    let mut k: usize = 0;
    while k < args.len()
        invariant
            args@.len() == info.params@.len(),
            h0 == *old(heap),
            h1.same_objects(&h0),
            marshal_prefix(h0, h0.states(), args@, info.params@, args@.len()).2 is None,
            forall|q: int| 0 <= q < args@.len() && (#[trigger] args@[q]) is Ptr ==> args@[q]->Ptr_0 < h0.states().len(),
            heap.wrappers@.len() == h0.wrappers@.len(),
            heap.states() == h1.states(),
            forall|j: int|
                0 <= j < heap.wrappers@.len() ==> (#[trigger] heap.wrappers@[j]).tyck_info
                    == h0.wrappers@[j].tyck_info,
            forall|i: int|
                0 <= i < heap.wrappers@.len() && (forall|q: int|
                    0 <= q < k ==> !(info.params@[q].action is Move && (#[trigger] args@[q]) is Ptr && args@[q]->Ptr_0 == i))
                    ==> #[trigger] heap.wrappers@[i].payload == h0.wrappers@[i].payload,
            forall|j: int| 0 <= j < args@.len() ==> h0.valid_value(#[trigger] args@[j]),
            0 <= k <= args@.len(),
            host_args@.len() == k,
            forall|q: int|
                0 <= q < k ==> #[trigger] host_args@[q] == host_arg(h0, args@[q], info.params@[q].action),
        decreases args.len() - k,
    {
        let v = args[k];
        let a = info.params[k].action;
        proof {
            if !(a is Bypass) {
                if let Value::Ptr(i) = v {
                    assert forall|q: int| 0 <= q < k implies !(info.params@[q].action is Move
                        && (#[trigger] args@[q]) is Ptr && args@[q]->Ptr_0 == i) by {
                        if info.params@[q].action is Move && args@[q] is Ptr && args@[q]->Ptr_0 == i {
                            lemma_no_use_after_move(h0, h0.states(), args@, info.params@, q, k as int);
                        }
                    }
                }
            }
        }
        let ghost hb = *heap;
        let hv = to_host(heap, v, a);
        proof {
            if !(a is Bypass) {
                if let Value::Ptr(i) = v {
                    if !(a is Share) && !(a is MutShare) {
                        assert(hb.wrappers@[i as int].payload == h0.wrappers@[i as int].payload);
                    }
                }
            }
            assert(hv == host_arg(h0, args@[k as int], info.params@[k as int].action));
            assert forall|i: int|
                0 <= i < heap.wrappers@.len() && (forall|q: int|
                    0 <= q < k + 1 ==> !(info.params@[q].action is Move && (#[trigger] args@[q]) is Ptr && args@[q]->Ptr_0 == i))
                    implies #[trigger] heap.wrappers@[i].payload == h0.wrappers@[i].payload by {
                assert(!(info.params@[k as int].action is Move && args@[k as int] is Ptr
                    && args@[k as int]->Ptr_0 == i));
                assert(heap.wrappers@[i] == hb.wrappers@[i]);
            }
        }
        host_args.push(hv);
        k = k + 1;
    }
    Ok((guards, host_args))
}

} // verus!
