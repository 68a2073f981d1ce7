//! An interactive structural editor and evaluator for untyped lambda calculus,
//! built for very small machines.
//!
//! Terms use de Bruijn indices. The crate provides:
//!
//! * [`expr::Expr`], a boxed tree of term nodes, with capture-avoiding
//!   substitution, beta-reduction, redex search, head and full normalisation,
//!   eta-conversion, and Church numeral coding;
//! * an editor over a zipper-like split of a whole term into a focused
//!   subterm and a context holding exactly one `Slot` marker, driven by a
//!   small command language;
//! * a pretty-printer that renders the split with cursor delimiters and
//!   recognises well-known combinators and Church numerals;
//! * a compact paged arena addressed by 16-bit handles, storing each node
//!   packed into two 16-bit words, together with the same term algorithms
//!   working over handles.

pub mod arena;
pub mod display;
pub mod editor;
pub mod expr;
pub mod heap;
pub mod parse;
pub mod term;
