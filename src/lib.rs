//! Generic dispatch helpers for syntax-tree traversals.
//!
//! Three traversal strategies share the same glue: a read-only visit, an
//! in-place mutation and a rebuilding fold.  Each strategy gets a dispatcher
//! that fans its span callback out over a cluster of one, two or three spans
//! (or a single bare span), strictly in positional order.  The fold strategy
//! also gets a remapper that rebuilds an owned list, plain or punctuated, by
//! replacing every element while keeping the list's shape.
use vstd::prelude::*;

pub mod fold;
pub mod punctuated;
pub mod trace;
pub mod visit;
pub mod visit_mut;

verus! {

/// Declares `proc_macro2::Span` (a `Copy` type) so that spans can stand in
/// signatures.  Nothing is assumed of what a span holds: the helpers copy,
/// hand out and store spans, and never look inside one.
#[verifier::external_type_specification]
#[verifier::external_body]
pub struct ExSpan(proc_macro2::Span);

} // verus!
