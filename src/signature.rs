//! Classification of a function declaration's parameters into calling-convention roles.
use vstd::prelude::*;
use crate::pattern::{binding_name, format_pat, opt_text, Pat};
use crate::ty::{
    extract_type_argument, last_ident, opt_ty_view, strip_lifetimes, strip_ty, type_argument,
    type_ends_with, Ty, TyView,
};

verus! {

/// Name of the receiver type (`this`).
pub const RECEIVER_MARKER: &'static str = "This";

/// Name of the call-context handle type.
pub const CONTEXT_MARKER: &'static str = "Context";

/// Name of the variadic tail type.
pub const REST_MARKER: &'static str = "Rest";

/// Name of the optional value type.
pub const OPTIONAL_MARKER: &'static str = "Optional";

/// One parameter of a declaration.
#[derive(Debug, PartialEq, Eq)]
pub struct Param {
    pub pat: Pat,
    pub ty: Ty,
}

/// A function declaration as the classifier reads it.
#[derive(Debug, PartialEq, Eq)]
pub struct FnDecl {
    pub name: String,
    pub params: Vec<Param>,
    /// `None` for a function returning `()`.
    pub output: Option<Ty>,
}

/// The calling-convention role of a parameter; the optional and rest roles
/// carry the first generic argument of their declared type.
#[derive(Debug, PartialEq, Eq)]
pub enum Role {
    Receiver,
    CallContext,
    Rest(Option<Ty>),
    Optional(Option<Ty>),
    Required,
}

/// A parameter with its role, its position in the declaration and its stripped type.
#[derive(Debug, PartialEq, Eq)]
pub struct ClassifiedParam {
    pub index: usize,
    pub name: Option<String>,
    pub ty: Ty,
    pub role: Role,
}

/// The result of classification.
#[derive(Debug, PartialEq, Eq)]
pub struct Signature {
    /// One entry per parameter, in declared order.
    pub params: Vec<ClassifiedParam>,
    pub receiver: bool,
    pub context: Option<usize>,
    pub rest: Option<usize>,
    pub output: Option<Ty>,
}

/// Why a declaration cannot be exposed; each carries the offending parameter's position.
#[derive(Debug, Clone, PartialEq, Eq)]
pub enum ClassifyError {
    DuplicateContext(usize),
    MisplacedRest(usize),
    UnsupportedPattern(usize),
}

pub ghost enum RoleView {
    Receiver,
    CallContext,
    Rest(Option<TyView>),
    Optional(Option<TyView>),
    Required,
}

pub open spec fn role_view(r: Role) -> RoleView {
    match r {
        Role::Receiver => RoleView::Receiver,
        Role::CallContext => RoleView::CallContext,
        Role::Rest(e) => RoleView::Rest(opt_ty_view(e)),
        Role::Optional(e) => RoleView::Optional(opt_ty_view(e)),
        Role::Required => RoleView::Required,
    }
}

/// The type under any number of reference layers.
pub open spec fn peel(t: TyView) -> TyView
    decreases t,
{
    match t {
        TyView::Reference { elem, .. } => peel(*elem),
        _ => t,
    }
}

pub open spec fn names(t: TyView, marker: &str) -> bool {
    last_ident(t) == Some(marker@)
}

pub open spec fn is_receiver(ps: Seq<Param>, i: int) -> bool {
    i == 0 && 0 < ps.len() && names(peel(ps[0].ty@), RECEIVER_MARKER)
}

pub open spec fn is_context(p: Param) -> bool {
    names(peel(p.ty@), CONTEXT_MARKER)
}

pub open spec fn is_rest(p: Param) -> bool {
    names(p.ty@, REST_MARKER)
}

pub open spec fn is_optional(p: Param) -> bool {
    names(p.ty@, OPTIONAL_MARKER)
}

/// The role of parameter `i`.
pub open spec fn role_of(ps: Seq<Param>, i: int) -> RoleView {
    if is_receiver(ps, i) {
        RoleView::Receiver
    } else if is_context(ps[i]) {
        RoleView::CallContext
    } else if is_rest(ps[i]) {
        RoleView::Rest(type_argument(strip_ty(ps[i].ty@), 0))
    } else if is_optional(ps[i]) {
        RoleView::Optional(type_argument(strip_ty(ps[i].ty@), 0))
    } else {
        RoleView::Required
    }
}

/// Parameter `i` must be a plain name binding and is not.
pub open spec fn unnamed_required(ps: Seq<Param>, i: int) -> bool {
    role_of(ps, i) == RoleView::Required && binding_name(ps[i].pat) is None
}

/// How many of the first `k` parameters are call-context handles.
pub open spec fn context_count(ps: Seq<Param>, k: int) -> nat
    decreases k,
{
    if k <= 0 {
        0
    } else {
        context_count(ps, k - 1) + if is_context(ps[k - 1]) {
            1nat
        } else {
            0nat
        }
    }
}

pub open spec fn has_duplicate_context(ps: Seq<Param>) -> bool {
    context_count(ps, ps.len() as int) >= 2
}

/// Parameter `j` is the second call-context handle.
pub open spec fn duplicate_context_at(ps: Seq<Param>, j: int) -> bool {
    0 <= j < ps.len() && is_context(ps[j]) && context_count(ps, j) == 1
}

pub open spec fn has_misplaced_rest(ps: Seq<Param>) -> bool {
    exists|i: int| 0 <= i < ps.len() - 1 && is_rest(#[trigger] ps[i])
}

/// Parameter `i` is the first rest parameter and is not last.
pub open spec fn misplaced_rest_at(ps: Seq<Param>, i: int) -> bool {
    0 <= i < ps.len() - 1 && is_rest(ps[i]) && forall|k: int| 0 <= k < i ==> !is_rest(#[trigger] ps[k])
}

pub open spec fn has_unsupported_pattern(ps: Seq<Param>) -> bool {
    exists|i: int| 0 <= i < ps.len() && #[trigger] unnamed_required(ps, i)
}

/// Parameter `i` is the first required parameter without a plain name.
pub open spec fn unsupported_pattern_at(ps: Seq<Param>, i: int) -> bool {
    0 <= i < ps.len() && unnamed_required(ps, i) && forall|k: int|
        0 <= k < i ==> !#[trigger] unnamed_required(ps, k)
}

/// The declaration classifies without error.
pub open spec fn classifies(ps: Seq<Param>) -> bool {
    !has_duplicate_context(ps) && !has_misplaced_rest(ps) && !has_unsupported_pattern(ps)
}

/// Entry `i` of the classified list describes parameter `i` of `ps`.
pub open spec fn describes(ps: Seq<Param>, i: int, c: ClassifiedParam) -> bool {
    &&& c.index == i
    &&& opt_text(c.name) == binding_name(ps[i].pat)
    &&& c.ty@ == strip_ty(ps[i].ty@)
    &&& role_view(c.role) == role_of(ps, i)
}

pub open spec fn opt_strip(t: Option<Ty>) -> Option<TyView> {
    match t {
        Some(t) => Some(strip_ty(t@)),
        None => None,
    }
}

/// `sig` is the classification of `d`.
pub open spec fn signature_of(d: FnDecl, sig: Signature) -> bool {
    let ps = d.params@;
    &&& sig.params@.len() == ps.len()
    &&& forall|i: int| 0 <= i < ps.len() ==> describes(ps, i, #[trigger] sig.params@[i])
    &&& sig.receiver == is_receiver(ps, 0)
    &&& (sig.context is Some) == (context_count(ps, ps.len() as int) == 1)
    &&& (sig.context matches Some(c) ==> c < ps.len() && is_context(ps[c as int]))
    &&& sig.rest == if ps.len() > 0 && is_rest(ps.last()) {
        Some((ps.len() - 1) as usize)
    } else {
        None
    }
    &&& opt_ty_view(sig.output) == opt_strip(d.output)
}

/// `r` is what classifying `d` gives: its signature, or the first rule it breaks.
pub open spec fn classified_as(d: FnDecl, r: Result<Signature, ClassifyError>) -> bool {
    let ps = d.params@;
    match r {
        Ok(sig) => classifies(ps) && signature_of(d, sig),
        Err(ClassifyError::DuplicateContext(j)) => duplicate_context_at(ps, j as int),
        Err(ClassifyError::MisplacedRest(i)) => !has_duplicate_context(ps) && misplaced_rest_at(
            ps,
            i as int,
        ),
        Err(ClassifyError::UnsupportedPattern(i)) => !has_duplicate_context(ps)
            && !has_misplaced_rest(ps) && unsupported_pattern_at(ps, i as int),
    }
}

/// The type under any number of reference layers.
pub fn peel_ref(t: &Ty) -> (r: &Ty)
    ensures
        r@ == peel(t@),
    decreases t,
{
    match t {
        Ty::Reference { elem, .. } => peel_ref(elem),
        _ => t,
    }
}

fn context_param(p: &Param) -> (r: bool)
    ensures
        r == is_context(*p),
{
    type_ends_with(peel_ref(&p.ty), CONTEXT_MARKER)
}

fn rest_param(p: &Param) -> (r: bool)
    ensures
        r == is_rest(*p),
{
    type_ends_with(&p.ty, REST_MARKER)
}

/// The role of parameter `i`, with its inner type taken from the stripped type `st`.
fn role_at(ps: &Vec<Param>, i: usize, st: &Ty) -> (r: Role)
    requires
        i < ps@.len(),
        st@ == strip_ty(ps@[i as int].ty@),
    ensures
        role_view(r) == role_of(ps@, i as int),
{
    let p = &ps[i];
    if i == 0 && type_ends_with(peel_ref(&p.ty), RECEIVER_MARKER) {
        Role::Receiver
    } else if context_param(p) {
        Role::CallContext
    } else if rest_param(p) {
        Role::Rest(extract_type_argument(st, 0))
    } else if type_ends_with(&p.ty, OPTIONAL_MARKER) {
        Role::Optional(extract_type_argument(st, 0))
    } else {
        Role::Required
    }
}

proof fn lemma_context_count_grows(ps: Seq<Param>, j: int, k: int)
    requires
        0 <= j <= k,
    ensures
        context_count(ps, j) <= context_count(ps, k),
    decreases k - j,
{
    if j < k {
        lemma_context_count_grows(ps, j, k - 1);
    }
}

/// Classifies each parameter of `d`, or reports the first rule it breaks: a second
/// call-context handle, then a rest parameter that is not last, then a required
/// parameter bound by a structured pattern.
pub fn classify(d: &FnDecl) -> (r: Result<Signature, ClassifyError>)
    ensures
        classified_as(*d, r),
{
    let ps = &d.params;
    let n = ps.len();
    let mut context: Option<usize> = None;
    let mut i: usize = 0;
    while i < n
        invariant
            n == ps@.len(),
            ps == d.params,
            i <= n,
            context_count(ps@, i as int) <= 1,
            (context is Some) == (context_count(ps@, i as int) == 1),
            context matches Some(c) ==> c < n && is_context(ps@[c as int]),
        decreases n - i,
    {
        if context_param(&ps[i]) {
            if context.is_some() {
                return Err(ClassifyError::DuplicateContext(i));
            }
            context = Some(i);
        }
        i += 1;
    }
    let mut i: usize = 0;
    while i + 1 < n
        invariant
            n == ps@.len(),
            ps == d.params,
            i <= n,
            i + 1 <= n || n == 0,
            context_count(ps@, n as int) <= 1,
            forall|k: int| 0 <= k < i ==> !is_rest(#[trigger] ps@[k]),
        decreases n - i,
    {
        if rest_param(&ps[i]) {
            return Err(ClassifyError::MisplacedRest(i));
        }
        i += 1;
    }
    assert(!has_misplaced_rest(ps@));
    let mut params: Vec<ClassifiedParam> = Vec::new();
    let mut i: usize = 0;
    while i < n
        invariant
            n == ps@.len(),
            ps == d.params,
            i <= n,
            params@.len() == i,
            context_count(ps@, n as int) <= 1,
            !has_misplaced_rest(ps@),
            forall|k: int| 0 <= k < i ==> describes(ps@, k, #[trigger] params@[k]),
            forall|k: int| 0 <= k < i ==> !#[trigger] unnamed_required(ps@, k),
        decreases n - i,
    {
        let p = &ps[i];
        let st = strip_lifetimes(&p.ty);
        let role = role_at(ps, i, &st);
        let name = format_pat(&p.pat);
        if matches!(role, Role::Required) && name.is_none() {
            return Err(ClassifyError::UnsupportedPattern(i));
        }
        params.push(ClassifiedParam { index: i, name, ty: st, role });
        i += 1;
    }
    let rest = if n > 0 && rest_param(&ps[n - 1]) {
        Some(n - 1)
    } else {
        None
    };
    let output = match &d.output {
        Some(t) => Some(strip_lifetimes(t)),
        None => None,
    };
    let receiver = n > 0 && type_ends_with(peel_ref(&ps[0].ty), RECEIVER_MARKER);
    Ok(Signature { params, receiver, context, rest, output })
}

/// A declaration with two call-context parameters is rejected with `DuplicateContext`.
pub proof fn lemma_two_contexts_rejected(
    d: FnDecl,
    r: Result<Signature, ClassifyError>,
    i: int,
    j: int,
)
    requires
        classified_as(d, r),
        0 <= i < j < d.params@.len(),
        is_context(d.params@[i]),
        is_context(d.params@[j]),
    ensures
        r matches Err(ClassifyError::DuplicateContext(_)),
{
    let ps = d.params@;
    lemma_context_count_grows(ps, 0, i);
    lemma_context_count_grows(ps, i + 1, j);
    lemma_context_count_grows(ps, j + 1, ps.len() as int);
    assert(has_duplicate_context(ps));
}

/// A rest parameter followed by any number of parameters is rejected with
/// `MisplacedRest` (unless a duplicate call context is reported first).
pub proof fn lemma_rest_not_last_rejected(d: FnDecl, r: Result<Signature, ClassifyError>, i: int)
    requires
        classified_as(d, r),
        0 <= i < d.params@.len() - 1,
        is_rest(d.params@[i]),
        !has_duplicate_context(d.params@),
    ensures
        r matches Err(ClassifyError::MisplacedRest(_)),
{
    assert(has_misplaced_rest(d.params@));
    if let Err(ClassifyError::DuplicateContext(j)) = r {
        lemma_context_count_grows(d.params@, j + 1, d.params@.len() as int);
    }
}

} // verus!
