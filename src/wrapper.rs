//! The engine-facing wrapper: what it extracts for each parameter, how it
//! returns, and how a call's arguments are matched to the parameters.
use vstd::prelude::*;
use crate::pattern::binding_name;
use crate::signature::{
    classified_as, classifies, classify, describes, names, role_of, ClassifiedParam, ClassifyError,
    FnDecl, Param, Role, RoleView, Signature,
};
use crate::ty::{copy_ty, opt_ty_view, strip_ty, type_ends_with, Ty, TyView};

verus! {

/// Name of the return type that already signals failure.
pub const RESULT_MARKER: &'static str = "Result";

/// What the wrapper does for one parameter of the wrapped function.
#[derive(Debug, PartialEq, Eq)]
pub enum Step {
    /// Convert the receiver handle to this type.
    Receiver(Ty),
    /// Pass the call-context handle through.
    Context,
    /// Convert the argument at `position`; a missing one is an arity error naming `name`.
    Required { position: usize, name: String, ty: Ty },
    /// Convert the argument at `position`, or use the type's default when it is missing.
    Optional { position: usize, ty: Ty },
    /// Convert every argument from `from` on, each to `ty`, into a collection.
    Rest { from: usize, ty: Ty },
}

/// How the wrapper hands back the wrapped function's result.
#[derive(Debug, PartialEq, Eq)]
pub enum ReturnMode {
    Unit,
    Value(Ty),
    /// A result-like type whose failure becomes an engine exception.
    Fallible(Ty),
}

/// The generated wrapper, one step per parameter of the wrapped function, in declared order.
#[derive(Debug, PartialEq, Eq)]
pub struct WrapperPlan {
    pub name: String,
    pub receiver: bool,
    pub steps: Vec<Step>,
    pub output: ReturnMode,
}

/// Whether parameter `i` takes a position in the argument collection.
pub open spec fn takes_position(ps: Seq<Param>, i: int) -> bool {
    role_of(ps, i) != RoleView::Receiver && role_of(ps, i) != RoleView::CallContext
}

/// The argument position of parameter `i`: how many earlier parameters take one.
pub open spec fn value_position(ps: Seq<Param>, i: int) -> nat
    decreases i,
{
    if i <= 0 {
        0
    } else {
        value_position(ps, i - 1) + if takes_position(ps, i - 1) {
            1nat
        } else {
            0nat
        }
    }
}

/// The type an optional or rest argument is converted to: its inner type, or the
/// declared type when it has none.
pub open spec fn element_or(inner: Option<TyView>, declared: TyView) -> TyView {
    match inner {
        Some(t) => t,
        None => declared,
    }
}

/// `s` is the step for parameter `i`.
pub open spec fn step_for(ps: Seq<Param>, i: int, s: Step) -> bool {
    let st = strip_ty(ps[i].ty@);
    let pos = value_position(ps, i);
    match role_of(ps, i) {
        RoleView::Receiver => s matches Step::Receiver(t) && t@ == st,
        RoleView::CallContext => s is Context,
        RoleView::Required => s matches Step::Required { position, name, ty } && position == pos
            && Some(name@) == binding_name(ps[i].pat) && ty@ == st,
        RoleView::Optional(inner) => s matches Step::Optional { position, ty } && position == pos
            && ty@ == element_or(inner, st),
        RoleView::Rest(inner) => s matches Step::Rest { from, ty } && from == pos && ty@
            == element_or(inner, st),
    }
}

pub open spec fn return_mode_of(output: Option<Ty>, m: ReturnMode) -> bool {
    match output {
        None => m is Unit,
        Some(t) => if names(t@, RESULT_MARKER) {
            m matches ReturnMode::Fallible(u) && u@ == strip_ty(t@)
        } else {
            m matches ReturnMode::Value(u) && u@ == strip_ty(t@)
        },
    }
}

/// `plan` is the wrapper generated for `d`.
pub open spec fn plan_of(d: FnDecl, plan: WrapperPlan) -> bool {
    let ps = d.params@;
    &&& plan.name@ == d.name@
    &&& plan.receiver == (ps.len() > 0 && role_of(ps, 0) == RoleView::Receiver)
    &&& plan.steps@.len() == ps.len()
    &&& forall|i: int| 0 <= i < ps.len() ==> step_for(ps, i, #[trigger] plan.steps@[i])
    &&& return_mode_of(d.output, plan.output)
}

fn element_type(inner: &Option<Ty>, declared: &Ty) -> (r: Ty)
    ensures
        r@ == element_or(opt_ty_view(*inner), declared@),
{
    match inner {
        Some(t) => copy_ty(t),
        None => copy_ty(declared),
    }
}

fn step_of(c: &ClassifiedParam, position: usize) -> (r: Option<Step>)
    ensures
        match c.role {
            Role::Receiver => r matches Some(Step::Receiver(t)) && t@ == c.ty@,
            Role::CallContext => r matches Some(Step::Context),
            Role::Required => match c.name {
                Some(n) => r matches Some(Step::Required { position: p, name, ty }) && p
                    == position && name@ == n@ && ty@ == c.ty@,
                None => r is None,
            },
            Role::Optional(inner) => r matches Some(Step::Optional { position: p, ty }) && p
                == position && ty@ == element_or(opt_ty_view(inner), c.ty@),
            Role::Rest(inner) => r matches Some(Step::Rest { from, ty }) && from == position
                && ty@ == element_or(opt_ty_view(inner), c.ty@),
        },
{
    match &c.role {
        Role::Receiver => Some(Step::Receiver(copy_ty(&c.ty))),
        Role::CallContext => Some(Step::Context),
        Role::Required => match &c.name {
            Some(n) => Some(Step::Required { position, name: n.clone(), ty: copy_ty(&c.ty) }),
            None => None,
        },
        Role::Optional(inner) => Some(Step::Optional { position, ty: element_type(inner, &c.ty) }),
        Role::Rest(inner) => Some(Step::Rest { from: position, ty: element_type(inner, &c.ty) }),
    }
}

/// Builds the wrapper for a declaration and its classification.
pub fn wrapper_plan(d: &FnDecl, sig: &Signature) -> (plan: WrapperPlan)
    requires
        classified_as(*d, Ok(*sig)),
    ensures
        plan_of(*d, plan),
{
    let ghost ps = d.params@;
    let n = sig.params.len();
    let mut steps: Vec<Step> = Vec::new();
    let mut position: usize = 0;
    let mut i: usize = 0;
    while i < n
        invariant
            n == ps.len(),
            ps == d.params@,
            classified_as(*d, Ok(*sig)),
            i <= n,
            steps@.len() == i,
            position == value_position(ps, i as int),
            position <= i,
            forall|k: int| 0 <= k < i ==> step_for(ps, k, #[trigger] steps@[k]),
        decreases n - i,
    {
        let c = &sig.params[i];
        assert(describes(ps, i as int, sig.params@[i as int]));
        let s = step_of(c, position);
        match s {
            Some(s) => {
                steps.push(s);
            },
            None => {
                assert(crate::signature::unnamed_required(ps, i as int));
                assert(false);
            },
        }
        if !matches!(c.role, Role::Receiver) && !matches!(c.role, Role::CallContext) {
            position += 1;
        }
        i += 1;
    }
    let output = match (&d.output, &sig.output) {
        (Some(declared), Some(t)) => {
            if type_ends_with(declared, RESULT_MARKER) {
                ReturnMode::Fallible(copy_ty(t))
            } else {
                ReturnMode::Value(copy_ty(t))
            }
        },
        _ => ReturnMode::Unit,
    };
    WrapperPlan { name: d.name.clone(), receiver: sig.receiver, steps, output }
}

/// Classifies `d` and builds its wrapper, or reports the first rule it breaks.
pub fn js_fn(d: &FnDecl) -> (r: Result<WrapperPlan, ClassifyError>)
    ensures
        match r {
            Ok(plan) => classifies(d.params@) && plan_of(*d, plan),
            Err(e) => classified_as(*d, Err(e)),
        },
{
    match classify(d) {
        Ok(sig) => Ok(wrapper_plan(d, &sig)),
        Err(e) => Err(e),
    }
}

/// Where the wrapper takes the value for one parameter from, in one call.
#[derive(PartialEq, Eq, Structural, Debug, Clone, Copy)]
pub enum Source {
    Receiver,
    Context,
    Argument(usize),
    Default,
    /// The arguments at positions `from..to`.
    Collected(usize, usize),
}

/// Why a call of the wrapper fails before the wrapped function runs.
#[derive(Debug, PartialEq, Eq)]
pub enum CallError {
    /// The receiver handle does not convert to the receiver type.
    ReceiverConversionFailure,
    /// Too few arguments: the named required parameter has none.
    MissingRequiredArgument(String),
    /// The argument at this position does not convert to this type.
    ArgumentConversionFailure(usize, Ty),
}

pub ghost enum CallFailure {
    Receiver,
    Missing(Seq<char>),
    Conversion(int, TyView),
}

pub open spec fn call_failure(e: CallError) -> CallFailure {
    match e {
        CallError::ReceiverConversionFailure => CallFailure::Receiver,
        CallError::MissingRequiredArgument(name) => CallFailure::Missing(name@),
        CallError::ArgumentConversionFailure(p, t) => CallFailure::Conversion(p as int, t@),
    }
}

pub open spec fn source_for(s: Step, argc: nat) -> Source {
    match s {
        Step::Receiver(_) => Source::Receiver,
        Step::Context => Source::Context,
        Step::Required { position, .. } => Source::Argument(position),
        Step::Optional { position, .. } => if position < argc {
            Source::Argument(position)
        } else {
            Source::Default
        },
        Step::Rest { from, .. } => if from < argc {
            Source::Collected(from, argc as usize)
        } else {
            Source::Collected(from, from)
        },
    }
}

/// The first position in `from..to` whose argument does not convert.
pub open spec fn first_failure(converts: Seq<bool>, from: int, to: int) -> Option<int>
    decreases to - from,
{
    if from >= to {
        None
    } else if !converts[from] {
        Some(from)
    } else {
        first_failure(converts, from + 1, to)
    }
}

/// How step `s` fails in a call with `converts.len()` arguments, where `receiver_converts`
/// and `converts` tell which conversions succeed; `None` when it does not fail.
pub open spec fn step_failure(s: Step, receiver_converts: bool, converts: Seq<bool>) -> Option<
    CallFailure,
> {
    match s {
        Step::Receiver(_) => if receiver_converts {
            None
        } else {
            Some(CallFailure::Receiver)
        },
        Step::Context => None,
        Step::Required { position, name, ty } => if position >= converts.len() {
            Some(CallFailure::Missing(name@))
        } else if !converts[position as int] {
            Some(CallFailure::Conversion(position as int, ty@))
        } else {
            None
        },
        Step::Optional { position, ty } => if position < converts.len()
            && !converts[position as int] {
            Some(CallFailure::Conversion(position as int, ty@))
        } else {
            None
        },
        Step::Rest { from, ty } => match first_failure(converts, from as int, converts.len() as int) {
            Some(p) => Some(CallFailure::Conversion(p, ty@)),
            None => None,
        },
    }
}

fn first_failure_in(converts: &Vec<bool>, from: usize) -> (r: Option<usize>)
    ensures
        match r {
            Some(p) => first_failure(converts@, from as int, converts@.len() as int) == Some(p as int),
            None => first_failure(converts@, from as int, converts@.len() as int) is None,
        },
{
    let n = converts.len();
    let mut j: usize = from;
    while j < n
        invariant
            n == converts@.len(),
            from <= j,
            j < n ==> first_failure(converts@, from as int, n as int) == first_failure(converts@, j as int, n as int),
            j >= n ==> first_failure(converts@, from as int, n as int) is None,
        decreases n - j,
    {
        if !converts[j] {
            return Some(j);
        }
        j += 1;
    }
    None
}

/// Decides a call of the wrapper with `converts.len()` arguments: `receiver_converts`
/// and `converts[p]` say whether the receiver and the argument at `p` convert.
/// The steps run in declared order; the first that fails gives the error, and
/// otherwise each step gets its source.
pub fn resolve_arguments(plan: &WrapperPlan, receiver_converts: bool, converts: &Vec<bool>) -> (r:
    Result<Vec<Source>, CallError>)
    ensures
        match r {
            Ok(srcs) => {
                &&& forall|i: int|
                    0 <= i < plan.steps@.len() ==> step_failure(
                        #[trigger] plan.steps@[i],
                        receiver_converts,
                        converts@,
                    ) is None
                &&& srcs@.len() == plan.steps@.len()
                &&& forall|i: int|
                    0 <= i < plan.steps@.len() ==> #[trigger] srcs@[i] == source_for(
                        plan.steps@[i],
                        converts@.len(),
                    )
            },
            Err(e) => exists|i: int|
                0 <= i < plan.steps@.len() && (forall|k: int|
                    0 <= k < i ==> step_failure(#[trigger] plan.steps@[k], receiver_converts, converts@)
                        is None) && step_failure(plan.steps@[i], receiver_converts, converts@) == Some(
                    call_failure(e),
                ),
        },
{
    let steps = &plan.steps;
    let argc = converts.len();
    let mut srcs: Vec<Source> = Vec::new();
    let mut i: usize = 0;
    while i < steps.len()
        invariant
            steps@ == plan.steps@,
            argc == converts@.len(),
            i <= steps@.len(),
            srcs@.len() == i,
            forall|k: int|
                0 <= k < i ==> step_failure(#[trigger] steps@[k], receiver_converts, converts@) is None,
            forall|k: int| 0 <= k < i ==> #[trigger] srcs@[k] == source_for(steps@[k], argc as nat),
        decreases steps@.len() - i,
    {
        let src = match &steps[i] {
            Step::Receiver(_) => {
                if !receiver_converts {
                    return Err(CallError::ReceiverConversionFailure);
                }
                Source::Receiver
            },
            Step::Context => Source::Context,
            Step::Required { position, name, ty } => {
                if *position >= argc {
                    return Err(CallError::MissingRequiredArgument(name.clone()));
                }
                if !converts[*position] {
                    return Err(CallError::ArgumentConversionFailure(*position, copy_ty(ty)));
                }
                Source::Argument(*position)
            },
            Step::Optional { position, ty } => {
                if *position < argc {
                    if !converts[*position] {
                        return Err(CallError::ArgumentConversionFailure(*position, copy_ty(ty)));
                    }
                    Source::Argument(*position)
                } else {
                    Source::Default
                }
            },
            Step::Rest { from, ty } => {
                match first_failure_in(converts, *from) {
                    Some(p) => {
                        return Err(CallError::ArgumentConversionFailure(p, copy_ty(ty)));
                    },
                    None => {},
                }
                if *from < argc {
                    Source::Collected(*from, argc)
                } else {
                    Source::Collected(*from, *from)
                }
            },
        };
        srcs.push(src);
        i += 1;
    }
    Ok(srcs)
}

proof fn lemma_positions_are_indexes(ps: Seq<Param>, i: int)
    requires
        0 <= i <= ps.len(),
        forall|k: int| 0 <= k < ps.len() ==> #[trigger] role_of(ps, k) == RoleView::Required,
    ensures
        value_position(ps, i) == i,
    decreases i,
{
    if i > 0 {
        lemma_positions_are_indexes(ps, i - 1);
    }
}

/// When every parameter is a plain required value (no receiver, call context, rest or
/// optional parameter), the wrapper reads argument `i` for parameter `i`, for every
/// `i`, as a required argument, and hands them on in declared order.
pub proof fn lemma_plain_parameters_read_in_order(d: FnDecl, plan: WrapperPlan)
    requires
        plan_of(d, plan),
        forall|k: int| 0 <= k < d.params@.len() ==> #[trigger] role_of(d.params@, k) == RoleView::Required,
    ensures
        plan.steps@.len() == d.params@.len(),
        forall|i: int|
            0 <= i < d.params@.len() ==> (#[trigger] plan.steps@[i] matches Step::Required { position, .. }
                && position == i),
        forall|i: int, argc: nat|
            0 <= i < d.params@.len() ==> #[trigger] source_for(plan.steps@[i], argc) == Source::Argument(
                i as usize,
            ),
{
    assert forall|i: int| 0 <= i < d.params@.len() implies (#[trigger] plan.steps@[i] matches Step::Required { position, .. }
                && position == i) by {
        lemma_positions_are_indexes(d.params@, i);
        assert(step_for(d.params@, i, plan.steps@[i]));
    }
}

} // verus!
