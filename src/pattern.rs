//! Parameter binding patterns and the names they give to diagnostics.
use vstd::prelude::*;

verus! {

/// The binding pattern of a parameter.
#[derive(Debug, PartialEq, Eq)]
pub enum Pat {
    /// `name` or `mut name`
    Ident { name: String, mutable: bool },
    /// `(a, b, ..)`
    Tuple(Vec<Pat>),
    /// `_`
    Wild,
    /// Any other destructuring form, kept as source text.
    Other(String),
}

/// The name a pattern binds, when it is a plain name binding.
pub open spec fn binding_name(p: Pat) -> Option<Seq<char>> {
    match p {
        Pat::Ident { name, .. } => Some(name@),
        _ => None,
    }
}

pub open spec fn opt_text(s: Option<String>) -> Option<Seq<char>> {
    match s {
        Some(s) => Some(s@),
        None => None,
    }
}

/// The bound name of a plain name pattern; `None` for any structured pattern.
pub fn format_pat(pat: &Pat) -> (r: Option<String>)
    ensures
        opt_text(r) == binding_name(*pat),
{
    match pat {
        Pat::Ident { name, .. } => Some(name.clone()),
        _ => None,
    }
}

} // verus!
