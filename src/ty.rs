//! Type expressions: a small owned tree of paths, references and slices,
//! with the helpers that inspect and normalise it.
use vstd::prelude::*;

verus! {

broadcast use vstd::std_specs::vec::axiom_vec_index_decreases;

/// The persistent lifetime (`'static`), or any other lifetime by name.
#[derive(Debug, Clone, PartialEq, Eq)]
pub enum Lifetime {
    Static,
    Named(String),
}

/// One entry of an angle-bracketed argument list.
#[derive(Debug, PartialEq, Eq)]
pub enum GenericArg {
    Lifetime(Lifetime),
    Type(Ty),
    /// A const argument, kept as source text.
    Const(String),
}

/// One path segment: `ident` or `ident<args>`.
#[derive(Debug, PartialEq, Eq)]
pub struct Segment {
    pub ident: String,
    pub args: Vec<GenericArg>,
}

/// A type expression.
#[derive(Debug, PartialEq, Eq)]
pub enum Ty {
    /// `a::b::C<..>`
    Path(Vec<Segment>),
    /// `&'a mut T`
    Reference { lifetime: Option<Lifetime>, mutable: bool, elem: Box<Ty> },
    /// `[T]`
    Slice(Box<Ty>),
    /// Any other form, kept as source text.
    Other(String),
}

pub ghost enum LifetimeView {
    Static,
    Named(Seq<char>),
}

pub ghost enum ArgView {
    Lifetime(LifetimeView),
    Type(TyView),
    Const(Seq<char>),
}

pub ghost struct SegmentView {
    pub ident: Seq<char>,
    pub args: Seq<ArgView>,
}

pub ghost enum TyView {
    Path(Seq<SegmentView>),
    Reference { lifetime: Option<LifetimeView>, mutable: bool, elem: Box<TyView> },
    Slice(Box<TyView>),
    Other(Seq<char>),
}

pub open spec fn lifetime_view(l: Lifetime) -> LifetimeView {
    match l {
        Lifetime::Static => LifetimeView::Static,
        Lifetime::Named(s) => LifetimeView::Named(s@),
    }
}

pub open spec fn opt_lifetime_view(l: Option<Lifetime>) -> Option<LifetimeView> {
    match l {
        Some(l) => Some(lifetime_view(l)),
        None => None,
    }
}

pub open spec fn ty_view(t: Ty) -> TyView
    decreases t,
{
    match t {
        Ty::Path(segs) => TyView::Path(
            Seq::new(
                segs@.len(),
                |i: int|
                    if 0 <= i < segs@.len() {
                        segment_view(segs@[i])
                    } else {
                        SegmentView { ident: Seq::empty(), args: Seq::empty() }
                    },
            ),
        ),
        Ty::Reference { lifetime, mutable, elem } => TyView::Reference {
            lifetime: opt_lifetime_view(lifetime),
            mutable,
            elem: Box::new(ty_view(*elem)),
        },
        Ty::Slice(elem) => TyView::Slice(Box::new(ty_view(*elem))),
        Ty::Other(s) => TyView::Other(s@),
    }
}

pub open spec fn segment_view(s: Segment) -> SegmentView
    decreases s,
{
    SegmentView {
        ident: s.ident@,
        args: Seq::new(
            s.args@.len(),
            |j: int|
                if 0 <= j < s.args@.len() {
                    arg_view(s.args@[j])
                } else {
                    ArgView::Const(Seq::empty())
                },
        ),
    }
}

pub open spec fn arg_view(a: GenericArg) -> ArgView
    decreases a,
{
    match a {
        GenericArg::Lifetime(l) => ArgView::Lifetime(lifetime_view(l)),
        GenericArg::Type(t) => ArgView::Type(ty_view(t)),
        GenericArg::Const(c) => ArgView::Const(c@),
    }
}

pub open spec fn opt_ty_view(t: Option<Ty>) -> Option<TyView> {
    match t {
        Some(t) => Some(ty_view(t)),
        None => None,
    }
}

/// The last segment's name, when the type is a path with at least one segment.
pub open spec fn last_ident(t: TyView) -> Option<Seq<char>> {
    match t {
        TyView::Path(segs) => if segs.len() > 0 {
            Some(segs.last().ident)
        } else {
            None
        },
        _ => None,
    }
}

/// The type at `index` in the last segment's argument list, if that entry exists and is a type.
pub open spec fn type_argument(t: TyView, index: int) -> Option<TyView> {
    match t {
        TyView::Path(segs) => if segs.len() > 0 && 0 <= index < segs.last().args.len() {
            match segs.last().args[index] {
                ArgView::Type(a) => Some(a),
                _ => None,
            }
        } else {
            None
        },
        _ => None,
    }
}

/// An argument survives stripping unless it is a non-persistent lifetime.
pub open spec fn keeps(a: ArgView) -> bool {
    match a {
        ArgView::Lifetime(LifetimeView::Named(_)) => false,
        _ => true,
    }
}

/// The arguments that survive stripping, in their order.
pub open spec fn kept(s: Seq<ArgView>) -> Seq<ArgView>
    decreases s.len(),
{
    if s.len() == 0 {
        s
    } else if keeps(s.last()) {
        kept(s.drop_last()).push(s.last())
    } else {
        kept(s.drop_last())
    }
}

/// The type with every non-persistent lifetime removed, at every depth.
pub open spec fn strip_ty(t: TyView) -> TyView
    decreases t,
{
    match t {
        TyView::Path(segs) => TyView::Path(
            Seq::new(
                segs.len(),
                |i: int|
                    if 0 <= i < segs.len() {
                        strip_segment(segs[i])
                    } else {
                        SegmentView { ident: Seq::empty(), args: Seq::empty() }
                    },
            ),
        ),
        TyView::Reference { lifetime, mutable, elem } => TyView::Reference {
            lifetime: if lifetime == Some(LifetimeView::Static) {
                lifetime
            } else {
                None
            },
            mutable,
            elem: Box::new(strip_ty(*elem)),
        },
        TyView::Slice(elem) => TyView::Slice(Box::new(strip_ty(*elem))),
        TyView::Other(s) => TyView::Other(s),
    }
}

pub open spec fn strip_segment(s: SegmentView) -> SegmentView
    decreases s,
{
    SegmentView {
        ident: s.ident,
        args: kept(stripped_args(s.args)),
    }
}

/// Each argument stripped, none yet removed.
pub open spec fn stripped_args(args: Seq<ArgView>) -> Seq<ArgView>
    decreases args,
{
    Seq::new(
        args.len(),
        |j: int|
            if 0 <= j < args.len() {
                strip_arg(args[j])
            } else {
                ArgView::Const(Seq::empty())
            },
    )
}

pub open spec fn strip_arg(a: ArgView) -> ArgView
    decreases a,
{
    match a {
        ArgView::Type(t) => ArgView::Type(strip_ty(t)),
        _ => a,
    }
}

/// No non-persistent lifetime occurs anywhere in the type.
pub open spec fn clean_ty(t: TyView) -> bool
    decreases t,
{
    match t {
        TyView::Path(segs) => forall|i: int| 0 <= i < segs.len() ==> clean_segment(#[trigger] segs[i]),
        TyView::Reference { lifetime, mutable, elem } => (lifetime is None || lifetime == Some(
            LifetimeView::Static,
        )) && clean_ty(*elem),
        TyView::Slice(elem) => clean_ty(*elem),
        TyView::Other(_) => true,
    }
}

pub open spec fn clean_segment(s: SegmentView) -> bool
    decreases s,
{
    forall|j: int| 0 <= j < s.args.len() ==> clean_arg(#[trigger] s.args[j])
}

pub open spec fn clean_arg(a: ArgView) -> bool
    decreases a,
{
    match a {
        ArgView::Lifetime(LifetimeView::Named(_)) => false,
        ArgView::Type(t) => clean_ty(t),
        _ => true,
    }
}

spec fn kept_origin(s: Seq<ArgView>, x: ArgView) -> bool {
    exists|j: int| 0 <= j < s.len() && x == #[trigger] s[j] && keeps(s[j])
}

proof fn lemma_kept_members(s: Seq<ArgView>)
    ensures
        forall|k: int| 0 <= k < kept(s).len() ==> kept_origin(s, #[trigger] kept(s)[k]),
    decreases s.len(),
{
    if s.len() > 0 {
        let d = s.drop_last();
        lemma_kept_members(d);
        assert forall|k: int| 0 <= k < kept(s).len() implies kept_origin(s, #[trigger] kept(s)[k]) by {
            if keeps(s.last()) && k == kept(s).len() - 1 {
                assert(kept(s)[k] == s[s.len() - 1]);
            } else {
                assert(kept(s)[k] == kept(d)[k]);
                assert(kept_origin(d, kept(d)[k]));
                let j = choose|j: int| 0 <= j < d.len() && kept(d)[k] == #[trigger] d[j] && keeps(d[j]);
                assert(d[j] == s[j]);
            }
        }
    }
}

proof fn lemma_kept_all(s: Seq<ArgView>)
    requires
        forall|j: int| 0 <= j < s.len() ==> keeps(#[trigger] s[j]),
    ensures
        kept(s) == s,
    decreases s.len(),
{
    if s.len() > 0 {
        lemma_kept_all(s.drop_last());
        assert(s.drop_last().push(s.last()) =~= s);
    }
}

proof fn lemma_strip_ty_clean(t: TyView)
    ensures
        clean_ty(strip_ty(t)),
    decreases t,
{
    match t {
        TyView::Path(segs) => {
            assert forall|i: int| 0 <= i < segs.len() implies clean_segment(
                #[trigger] strip_ty(t)->Path_0[i],
            ) by {
                lemma_strip_segment_clean(segs[i]);
            }
        },
        TyView::Reference { lifetime, mutable, elem } => lemma_strip_ty_clean(*elem),
        TyView::Slice(elem) => lemma_strip_ty_clean(*elem),
        TyView::Other(_) => {},
    }
}

proof fn lemma_strip_segment_clean(s: SegmentView)
    ensures
        clean_segment(strip_segment(s)),
    decreases s,
{
    let st = stripped_args(s.args);
    assert forall|j: int| 0 <= j < st.len() && keeps(st[j]) implies clean_arg(#[trigger] st[j]) by {
        lemma_strip_arg_clean(s.args[j]);
    }
    lemma_kept_members(st);
    assert forall|k: int| 0 <= k < kept(st).len() implies clean_arg(#[trigger] kept(st)[k]) by {
        assert(kept_origin(st, kept(st)[k]));
        let j = choose|j: int| 0 <= j < st.len() && kept(st)[k] == #[trigger] st[j] && keeps(st[j]);
    }
}

proof fn lemma_strip_arg_clean(a: ArgView)
    ensures
        keeps(strip_arg(a)) ==> clean_arg(strip_arg(a)),
    decreases a,
{
    match a {
        ArgView::Type(t) => lemma_strip_ty_clean(t),
        _ => {},
    }
}

/// A type whose only lifetimes are the persistent one is left exactly as it is:
/// stripping never removes a persistent lifetime.
pub proof fn lemma_strip_keeps_persistent(t: TyView)
    requires
        clean_ty(t),
    ensures
        strip_ty(t) == t,
    decreases t,
{
    match t {
        TyView::Path(segs) => {
            assert forall|i: int| 0 <= i < segs.len() implies #[trigger] strip_segment(segs[i])
                == segs[i] by {
                lemma_strip_segment_identity(segs[i]);
            }
            assert(strip_ty(t) is Path);
            assert(strip_ty(t)->Path_0.len() == segs.len());
            assert(forall|i: int| 0 <= i < segs.len() ==> strip_ty(t)->Path_0[i] == strip_segment(#[trigger] segs[i]));
            assert(strip_ty(t)->Path_0 =~= segs);
        },
        TyView::Reference { lifetime, mutable, elem } => lemma_strip_keeps_persistent(*elem),
        TyView::Slice(elem) => lemma_strip_keeps_persistent(*elem),
        TyView::Other(_) => {},
    }
}

proof fn lemma_strip_segment_identity(s: SegmentView)
    requires
        clean_segment(s),
    ensures
        strip_segment(s) == s,
    decreases s,
{
    assert forall|j: int| 0 <= j < s.args.len() implies #[trigger] strip_arg(s.args[j])
        == s.args[j] by {
        lemma_strip_arg_identity(s.args[j]);
    }
    assert(stripped_args(s.args).len() == s.args.len());
    assert(forall|j: int| 0 <= j < s.args.len() ==> stripped_args(s.args)[j] == strip_arg(#[trigger] s.args[j]));
    assert(stripped_args(s.args) =~= s.args);
    lemma_kept_all(s.args);
}

proof fn lemma_strip_arg_identity(a: ArgView)
    requires
        clean_arg(a),
    ensures
        strip_arg(a) == a,
        keeps(a),
    decreases a,
{
    match a {
        ArgView::Type(t) => lemma_strip_keeps_persistent(t),
        _ => {},
    }
}

/// Stripping leaves no non-persistent lifetime anywhere in the type.
pub proof fn lemma_strip_is_clean(t: TyView)
    ensures
        clean_ty(strip_ty(t)),
{
    lemma_strip_ty_clean(t);
}

/// Stripping twice gives what stripping once gives.
pub proof fn lemma_strip_idempotent(t: TyView)
    ensures
        strip_ty(strip_ty(t)) == strip_ty(t),
{
    lemma_strip_ty_clean(t);
    lemma_strip_keeps_persistent(strip_ty(t));
}

/// Asking for an argument past the end of the last segment's list, or of a type
/// that is no path, gives `None`.
pub proof fn lemma_out_of_range_absent(t: TyView, index: int)
    requires
        match t {
            TyView::Path(segs) => segs.len() == 0 || index < 0 || index >= segs.last().args.len(),
            _ => true,
        },
    ensures
        type_argument(t, index) is None,
{
}

pub open spec fn args_view(v: Seq<GenericArg>) -> Seq<ArgView> {
    Seq::new(v.len(), |j: int| arg_view(v[j]))
}

/// The prefix of `v` of length `n`, each argument stripped.
pub open spec fn stripped_prefix(v: Seq<GenericArg>, n: int) -> Seq<ArgView> {
    Seq::new(n as nat, |j: int| strip_arg(arg_view(v[j])))
}

/// A copy of `t` with the same view.
pub fn copy_ty(t: &Ty) -> (r: Ty)
    ensures
        r@ == t@,
    decreases t,
{
    proof {
        reveal_with_fuel(ty_view, 3);
    }
    match t {
        Ty::Path(segs) => {
            let out = copy_segments(segs);
            let r = Ty::Path(out);
            assert(r@->Path_0 =~= t@->Path_0);
            r
        },
        Ty::Reference { lifetime, mutable, elem } => {
            let l = copy_lifetime_opt(lifetime);
            let e = copy_ty(elem);
            Ty::Reference { lifetime: l, mutable: *mutable, elem: Box::new(e) }
        },
        Ty::Slice(elem) => {
            let e = copy_ty(elem);
            Ty::Slice(Box::new(e))
        },
        Ty::Other(text) => Ty::Other(text.clone()),
    }
}

fn copy_lifetime_opt(l: &Option<Lifetime>) -> (r: Option<Lifetime>)
    ensures
        opt_lifetime_view(r) == opt_lifetime_view(*l),
{
    match l {
        None => None,
        Some(Lifetime::Static) => Some(Lifetime::Static),
        Some(Lifetime::Named(n)) => Some(Lifetime::Named(n.clone())),
    }
}

fn copy_segments(segs: &Vec<Segment>) -> (r: Vec<Segment>)
    ensures
        r@.len() == segs@.len(),
        forall|k: int| 0 <= k < segs@.len() ==> segment_view(#[trigger] r@[k]) == segment_view(segs@[k]),
    decreases segs,
{
    let mut out: Vec<Segment> = Vec::new();
    let mut i: usize = 0;
    while i < segs.len()
        invariant
            i <= segs@.len(),
            out@.len() == i,
            forall|k: int| 0 <= k < i ==> segment_view(#[trigger] out@[k]) == segment_view(segs@[k]),
        decreases segs@.len() - i,
    {
        let s = copy_segment(&segs[i]);
        out.push(s);
        i += 1;
    }
    out
}

fn copy_segment(s: &Segment) -> (r: Segment)
    ensures
        segment_view(r) == segment_view(*s),
    decreases s,
{
    proof {
        reveal_with_fuel(ty_view, 3);
    }
    let mut out: Vec<GenericArg> = Vec::new();
    let mut i: usize = 0;
    while i < s.args.len()
        invariant
            i <= s.args@.len(),
            out@.len() == i,
            forall|k: int| 0 <= k < i ==> arg_view(#[trigger] out@[k]) == arg_view(s.args@[k]),
        decreases s.args@.len() - i,
    {
        let a = copy_arg(&s.args[i]);
        out.push(a);
        i += 1;
    }
    let r = Segment { ident: s.ident.clone(), args: out };
    assert(segment_view(r).args =~= segment_view(*s).args);
    r
}

fn copy_arg(a: &GenericArg) -> (r: GenericArg)
    ensures
        arg_view(r) == arg_view(*a),
    decreases a,
{
    match a {
        GenericArg::Lifetime(Lifetime::Static) => GenericArg::Lifetime(Lifetime::Static),
        GenericArg::Lifetime(Lifetime::Named(n)) => GenericArg::Lifetime(Lifetime::Named(n.clone())),
        GenericArg::Type(t) => GenericArg::Type(copy_ty(t)),
        GenericArg::Const(c) => GenericArg::Const(c.clone()),
    }
}

/// The type with every non-persistent lifetime removed, in reference types and in
/// argument lists, at every depth; `'static` stays.
pub fn strip_lifetimes(t: &Ty) -> (r: Ty)
    ensures
        r@ == strip_ty(t@),
    decreases t,
{
    proof {
        reveal_with_fuel(ty_view, 3);
    }
    match t {
        Ty::Path(segs) => {
            let out = strip_segments(segs);
            let r = Ty::Path(out);
            assert(r@->Path_0 =~= strip_ty(t@)->Path_0);
            r
        },
        Ty::Reference { lifetime, mutable, elem } => {
            let l = match lifetime {
                Some(Lifetime::Static) => Some(Lifetime::Static),
                _ => None,
            };
            let e = strip_lifetimes(elem);
            Ty::Reference { lifetime: l, mutable: *mutable, elem: Box::new(e) }
        },
        Ty::Slice(elem) => {
            let e = strip_lifetimes(elem);
            Ty::Slice(Box::new(e))
        },
        Ty::Other(text) => Ty::Other(text.clone()),
    }
}

fn strip_segments(segs: &Vec<Segment>) -> (r: Vec<Segment>)
    ensures
        r@.len() == segs@.len(),
        forall|k: int|
            0 <= k < segs@.len() ==> segment_view(#[trigger] r@[k]) == strip_segment(
                segment_view(segs@[k]),
            ),
    decreases segs,
{
    let mut out: Vec<Segment> = Vec::new();
    let mut i: usize = 0;
    while i < segs.len()
        invariant
            i <= segs@.len(),
            out@.len() == i,
            forall|k: int|
                0 <= k < i ==> segment_view(#[trigger] out@[k]) == strip_segment(
                    segment_view(segs@[k]),
                ),
        decreases segs@.len() - i,
    {
        let s = strip_one_segment(&segs[i]);
        out.push(s);
        i += 1;
    }
    out
}

fn strip_one_segment(s: &Segment) -> (r: Segment)
    ensures
        segment_view(r) == strip_segment(segment_view(*s)),
    decreases s,
{
    proof {
        reveal_with_fuel(ty_view, 3);
    }
    let mut out: Vec<GenericArg> = Vec::new();
    let mut i: usize = 0;
    while i < s.args.len()
        invariant
            i <= s.args@.len(),
            args_view(out@) == kept(stripped_prefix(s.args@, i as int)),
        decreases s.args@.len() - i,
    {
        let ghost before = out@;
        let ghost whole = stripped_prefix(s.args@, i + 1);
        assert(whole.drop_last() =~= stripped_prefix(s.args@, i as int));
        match &s.args[i] {
            GenericArg::Lifetime(Lifetime::Named(_)) => {},
            GenericArg::Lifetime(Lifetime::Static) => {
                out.push(GenericArg::Lifetime(Lifetime::Static));
            },
            GenericArg::Type(t) => {
                let st = strip_lifetimes(t);
                out.push(GenericArg::Type(st));
            },
            GenericArg::Const(c) => {
                out.push(GenericArg::Const(c.clone()));
            },
        }
        assert(args_view(out@) =~= kept(whole));
        i += 1;
    }
    let ghost outv = out@;
    let r = Segment { ident: s.ident.clone(), args: out };
    let ghost sv = segment_view(*s);
    assert(stripped_prefix(s.args@, s.args@.len() as int) =~= stripped_args(sv.args));
    assert(segment_view(r).args =~= args_view(outv));
    assert(args_view(outv) == kept(stripped_prefix(s.args@, s.args@.len() as int)));
    assert(segment_view(r).args == strip_segment(sv).args);
    r
}

/// Rewrites type expressions so that they hold no non-persistent lifetime.
pub struct LifetimeRemover;

impl LifetimeRemover {
    /// Strips `ty` in place, at every depth.
    pub fn visit_type_mut(&mut self, ty: &mut Ty)
        ensures
            final(ty)@ == strip_ty(old(ty)@),
    {
        let r = strip_lifetimes(ty);
        *ty = r;
    }

    /// Strips every segment of a path in place: the argument lists lose their
    /// non-persistent lifetimes, at every depth.
    pub fn visit_type_path_mut(&mut self, segments: &mut Vec<Segment>)
        ensures
            final(segments)@.len() == old(segments)@.len(),
            forall|k: int|
                0 <= k < old(segments)@.len() ==> segment_view(#[trigger] final(segments)@[k])
                    == strip_segment(segment_view(old(segments)@[k])),
    {
        let r = strip_segments(segments);
        *segments = r;
    }
}

/// Whether the type is a path whose last segment is named `ident`.
pub fn type_ends_with(ty: &Ty, ident: &str) -> (r: bool)
    ensures
        r == (last_ident(ty@) == Some(ident@)),
{
    proof {
        reveal_with_fuel(ty_view, 3);
    }
    match ty {
        Ty::Path(segs) => {
            if segs.len() == 0 {
                false
            } else {
                let last = &segs[segs.len() - 1];
                same_text(last.ident.as_str(), ident)
            }
        },
        _ => false,
    }
}

/// Whether two strings hold the same characters.
pub fn same_text(a: &str, b: &str) -> (r: bool)
    ensures
        r == (a@ == b@),
{
    let n = a.unicode_len();
    if n != b.unicode_len() {
        return false;
    }
    let mut i: usize = 0;
    while i < n
        invariant
            n == a@.len(),
            n == b@.len(),
            i <= n,
            a@.subrange(0, i as int) == b@.subrange(0, i as int),
        decreases n - i,
    {
        if a.get_char(i) != b.get_char(i) {
            return false;
        }
        assert(a@.subrange(0, i + 1) =~= a@.subrange(0, i as int).push(a@[i as int]));
        assert(b@.subrange(0, i + 1) =~= b@.subrange(0, i as int).push(b@[i as int]));
        i += 1;
    }
    assert(a@ =~= a@.subrange(0, n as int));
    assert(b@ =~= b@.subrange(0, n as int));
    true
}

/// The type at position `index` of the last segment's angle-bracketed arguments;
/// `None` when there is no such entry or it is not a type.
pub fn extract_type_argument(ty: &Ty, index: usize) -> (r: Option<Ty>)
    ensures
        opt_ty_view(r) == type_argument(ty@, index as int),
{
    proof {
        reveal_with_fuel(ty_view, 3);
    }
    match ty {
        Ty::Path(segs) => {
            if segs.len() == 0 {
                return None;
            }
            let last = &segs[segs.len() - 1];
            if index >= last.args.len() {
                return None;
            }
            match &last.args[index] {
                GenericArg::Type(a) => Some(copy_ty(a)),
                _ => None,
            }
        },
        _ => None,
    }
}

impl View for Ty {
    type V = TyView;

    open spec fn view(&self) -> TyView {
        ty_view(*self)
    }
}

impl View for Segment {
    type V = SegmentView;

    open spec fn view(&self) -> SegmentView {
        segment_view(*self)
    }
}

} // verus!
