//! The zipper editor: a whole term split into a focused subterm and a
//! context holding exactly one `Slot`, together with the command
//! interpreter that performs structural surgery on that split.

use vstd::prelude::*;
use vstd::string::StringExecFns;
use vstd::string::StrSliceExecFns;

use crate::expr::Expr;
use crate::expr::lam;
use crate::expr::app;
use crate::expr::combinator_plus;
use crate::expr::combinator_times;
use crate::expr::combinator_power;
use crate::expr::spec_lam;
use crate::expr::spec_app;
use crate::expr::spec_plus;
use crate::expr::spec_times;
use crate::expr::spec_power;
use crate::expr::spec_church;

verus! {

/// How a leaf focus is treated for navigation: not at all, as an atomic
/// leaf that can be swapped with sibling leaves, or as the target of a
/// pending variable entry started with `.`.
#[derive(Debug, PartialEq, Eq, Structural, Clone, Copy)]
pub enum LeafMode {
    No,
    Leaf,
    InputDot,
}

/// One command of the editor language.
#[derive(Debug, PartialEq, Eq)]
pub enum Cmd {
    /// `bs`: clear the focus to a hole.
    Backspace,
    /// `l`: wrap in a lambda, or descend into a fresh one.
    Lambda,
    /// `b`: beta-reduce the focus.
    Beta,
    /// `redux`: detach the first redex inside the focus.
    Redux,
    /// `dn`: descend into the focus.
    Down,
    /// `up`: climb to the parent of the focus.
    Up,
    /// `top`: reassemble the whole term as the focus.
    Top,
    /// `lm`: move to the leftmost leaf of the focus.
    LeftMost,
    /// `rm`: move to the rightmost leaf of the focus.
    RightMost,
    /// `lt`: move towards the left sibling.
    LeftSib,
    /// `rt`: move towards the right sibling.
    RightSib,
    /// `$`: apply the focus on the left of a fresh hole.
    ApplyLeft,
    /// `@`: apply the focus on the right of a fresh hole.
    ApplyRight,
    /// `+`: the addition combinator, possibly applied to the focus.
    Plus,
    /// `*`: the multiplication combinator, possibly applied to the focus.
    Times,
    /// `^`: the exponentiation combinator, possibly applied to the focus.
    Power,
    /// `.`: begin entering a variable.
    Dot,
    /// A decimal number: a Church numeral, or a variable in input-dot mode.
    Num(u32),
    /// `[n]`: a variable literal.
    VarLit(u32),
    /// Anything else, kept for the diagnostic.
    Unknown(String),
}

/// The diagnostic a command leaves behind; `Quiet` when all went well.
#[derive(Debug, PartialEq, Eq)]
pub enum Diag {
    Quiet,
    Boop,
    BoopBeta,
    BoopRedux,
    Unrecognized(String),
}

impl Diag {
    /// The diagnostic text, empty for `Quiet`.
    pub open spec fn spec_message(self) -> Seq<char> {
        match self {
            Diag::Quiet => Seq::empty(),
            Diag::Boop => "boop"@,
            Diag::BoopBeta => "boop(beta)"@,
            Diag::BoopRedux => "boop(redux)"@,
            Diag::Unrecognized(tok) => "unrec'd cmd: "@ + tok@,
        }
    }

    /// The diagnostic text, empty for `Quiet`.
    pub fn message(&self) -> (m: String)
        ensures
            m@ == self.spec_message(),
    {
        match self {
            Diag::Quiet => {
                let m = String::new();
                proof {
                    assert(m@ =~= self.spec_message());
                }
                m
            },
            Diag::Boop => "boop".to_owned(),
            Diag::BoopBeta => "boop(beta)".to_owned(),
            Diag::BoopRedux => "boop(redux)".to_owned(),
            Diag::Unrecognized(tok) => {
                let mut m = "unrec'd cmd: ".to_owned();
                m.append(tok.as_str());
                m
            },
        }
    }
}

/// The editor state: the context (the surrounding term, holding exactly
/// one `Slot` where the focus belongs), the focused subterm, and the
/// leaf-mode flag.
pub struct EditorState {
    pub expr: Expr,
    pub cursor: Expr,
    pub leaf_mode: LeafMode,
}

impl EditorState {
    /// The structural invariant: exactly one `Slot` in the context and
    /// none in the focus.
    pub open spec fn wf(self) -> bool {
        self.expr.num_slots() == 1 && self.cursor.num_slots() == 0
    }

    /// A fresh editor: the focus is the whole (empty) term.
    pub fn new() -> (s: EditorState)
        ensures
            s.expr == Expr::Slot,
            s.cursor == Expr::Hole,
            s.leaf_mode == LeafMode::No,
            s.wf(),
    {
        EditorState { expr: Expr::Slot, cursor: Expr::Hole, leaf_mode: LeafMode::No }
    }

    /// The whole term: the focus written into the context's slot.
    pub open spec fn spec_plugged(self) -> Expr {
        self.expr.spec_replace_slot(self.cursor).0
    }

    /// Decide the structural invariant.
    pub fn wf_check(&self) -> (b: bool)
        ensures
            b == self.wf(),
    {
        self.expr.count_slots_sat() == 1 && self.cursor.count_slots_sat() == 0
    }
}

/// The term with its leftmost leaf replaced by `Slot`, and that leaf.
pub open spec fn spec_extract_leftmost(e: Expr) -> (Expr, Expr)
    decreases e,
{
    match e {
        Expr::Lam(b) => {
            let (b2, leaf) = spec_extract_leftmost(*b);
            (spec_lam(b2), leaf)
        },
        Expr::App(l, r) => {
            let (l2, leaf) = spec_extract_leftmost(*l);
            (Expr::App(Box::new(l2), r), leaf)
        },
        _ => (Expr::Slot, e),
    }
}

/// The term with its rightmost leaf replaced by `Slot`, and that leaf.
pub open spec fn spec_extract_rightmost(e: Expr) -> (Expr, Expr)
    decreases e,
{
    match e {
        Expr::Lam(b) => {
            let (b2, leaf) = spec_extract_rightmost(*b);
            (spec_lam(b2), leaf)
        },
        Expr::App(l, r) => {
            let (r2, leaf) = spec_extract_rightmost(*r);
            (Expr::App(l, Box::new(r2)), leaf)
        },
        _ => (Expr::Slot, e),
    }
}

/// The term with its leftmost leaf replaced by `to`.
pub open spec fn spec_replace_leftmost(e: Expr, to: Expr) -> Expr
    decreases e,
{
    match e {
        Expr::Lam(b) => spec_lam(spec_replace_leftmost(*b, to)),
        Expr::App(l, r) => Expr::App(Box::new(spec_replace_leftmost(*l, to)), r),
        _ => to,
    }
}

/// The term with its rightmost leaf replaced by `to`.
pub open spec fn spec_replace_rightmost(e: Expr, to: Expr) -> Expr
    decreases e,
{
    match e {
        Expr::Lam(b) => spec_lam(spec_replace_rightmost(*b, to)),
        Expr::App(l, r) => Expr::App(l, Box::new(spec_replace_rightmost(*r, to))),
        _ => to,
    }
}

/// The term with its first pre-order redex replaced by `Slot`; a term
/// without a redex is unchanged.
pub open spec fn spec_detach_redux(e: Expr) -> Expr
    decreases e,
{
    if e.spec_is_redex() {
        Expr::Slot
    } else {
        match e {
            Expr::Lam(b) => spec_lam(spec_detach_redux(*b)),
            Expr::App(l, r) => if l.spec_redux_opt() is Some {
                Expr::App(Box::new(spec_detach_redux(*l)), r)
            } else {
                Expr::App(l, Box::new(spec_detach_redux(*r)))
            },
            _ => e,
        }
    }
}

/// Replace the leftmost leaf by `Slot`, returning the new term and the
/// old leaf.
fn extract_leftmost(e: Expr) -> (res: (Expr, Expr))
    ensures
        res == spec_extract_leftmost(e),
    decreases e,
{
    match e {
        Expr::Lam(b) => {
            let (b2, leaf) = extract_leftmost(*b);
            (lam(b2), leaf)
        },
        Expr::App(l, r) => {
            let (l2, leaf) = extract_leftmost(*l);
            (Expr::App(Box::new(l2), r), leaf)
        },
        other => (Expr::Slot, other),
    }
}

/// Replace the rightmost leaf by `Slot`, returning the new term and the
/// old leaf.
fn extract_rightmost(e: Expr) -> (res: (Expr, Expr))
    ensures
        res == spec_extract_rightmost(e),
    decreases e,
{
    match e {
        Expr::Lam(b) => {
            let (b2, leaf) = extract_rightmost(*b);
            (lam(b2), leaf)
        },
        Expr::App(l, r) => {
            let (r2, leaf) = extract_rightmost(*r);
            (Expr::App(l, Box::new(r2)), leaf)
        },
        other => (Expr::Slot, other),
    }
}

/// Replace the leftmost leaf by `to`.
fn replace_leftmost(e: Expr, to: Expr) -> (res: Expr)
    ensures
        res == spec_replace_leftmost(e, to),
    decreases e,
{
    match e {
        Expr::Lam(b) => lam(replace_leftmost(*b, to)),
        Expr::App(l, r) => Expr::App(Box::new(replace_leftmost(*l, to)), r),
        _ => to,
    }
}

/// Replace the rightmost leaf by `to`.
fn replace_rightmost(e: Expr, to: Expr) -> (res: Expr)
    ensures
        res == spec_replace_rightmost(e, to),
    decreases e,
{
    match e {
        Expr::Lam(b) => lam(replace_rightmost(*b, to)),
        Expr::App(l, r) => Expr::App(l, Box::new(replace_rightmost(*r, to))),
        _ => to,
    }
}

/// Replace the first pre-order redex by `Slot`, returning the new term
/// and the detached redex when there is one.
fn extract_redux(e: Expr) -> (res: (Expr, Option<Expr>))
    ensures
        res.0 == if e.spec_redux_opt() is Some {
            spec_detach_redux(e)
        } else {
            e
        },
        res.1 == e.spec_redux_opt(),
    decreases e,
{
    let is_red = match &e {
        Expr::App(l, _) => matches!(**l, Expr::Lam(_)),
        _ => false,
    };
    if is_red {
        (Expr::Slot, Some(e))
    } else {
        match e {
            Expr::Lam(b) => {
                let (b2, red) = extract_redux(*b);
                (lam(b2), red)
            },
            Expr::App(l, r) => {
                let (l2, red) = extract_redux(*l);
                match red {
                    Some(x) => (Expr::App(Box::new(l2), r), Some(x)),
                    None => {
                        let (r2, red2) = extract_redux(*r);
                        (Expr::App(Box::new(l2), Box::new(r2)), red2)
                    },
                }
            },
            other => (other, None),
        }
    }
}

/// The `up` surgery on a context: find the node whose direct child is the
/// `Slot`; replace that node by `Slot` and hand the node back as the new
/// focus, with the old focus written into its slot. When the old focus is
/// a hole and the parent is an application of the slot and one other side,
/// the parent collapses to that other side instead. Yields the reworked
/// context, the new focus, and whether a parent was found (otherwise both
/// come back unchanged).
pub open spec fn spec_up_rec(e: Expr, cur: Expr) -> (Expr, Expr, bool)
    decreases e,
{
    match e {
        Expr::Lam(b) => {
            if *b == Expr::Slot {
                (Expr::Slot, spec_lam(cur), true)
            } else {
                let (b2, c2, f) = spec_up_rec(*b, cur);
                (spec_lam(b2), c2, f)
            }
        },
        Expr::App(l, r) => {
            if *l == Expr::Slot {
                if cur == Expr::Hole {
                    (Expr::Slot, *r, true)
                } else {
                    (Expr::Slot, spec_app(cur, *r), true)
                }
            } else if *r == Expr::Slot {
                if cur == Expr::Hole {
                    (Expr::Slot, *l, true)
                } else {
                    (Expr::Slot, spec_app(*l, cur), true)
                }
            } else {
                let (l2, c2, f) = spec_up_rec(*l, cur);
                if f {
                    (Expr::App(Box::new(l2), r), c2, true)
                } else {
                    let (r2, c3, f2) = spec_up_rec(*r, c2);
                    (Expr::App(Box::new(l2), Box::new(r2)), c3, f2)
                }
            }
        },
        _ => (e, cur, false),
    }
}

/// The `rt` surgery outside leaf mode: at a parent `App(Slot, x)` the
/// slot moves to the right side (or, with a hole focus, the parent
/// collapses to `x`); at any other parent this climbs exactly as `up`.
pub open spec fn spec_rt_rec(e: Expr, cur: Expr) -> (Expr, Expr, bool)
    decreases e,
{
    match e {
        Expr::Lam(b) => {
            if *b == Expr::Slot {
                (Expr::Slot, spec_lam(cur), true)
            } else {
                let (b2, c2, f) = spec_rt_rec(*b, cur);
                (spec_lam(b2), c2, f)
            }
        },
        Expr::App(l, r) => {
            if *l == Expr::Slot {
                if cur == Expr::Hole {
                    (Expr::Slot, *r, true)
                } else {
                    (spec_app(cur, Expr::Slot), *r, true)
                }
            } else if *r == Expr::Slot {
                (Expr::Slot, spec_app(*l, cur), true)
            } else {
                let (l2, c2, f) = spec_rt_rec(*l, cur);
                if f {
                    (Expr::App(Box::new(l2), r), c2, true)
                } else {
                    let (r2, c3, f2) = spec_rt_rec(*r, c2);
                    (Expr::App(Box::new(l2), Box::new(r2)), c3, f2)
                }
            }
        },
        _ => (e, cur, false),
    }
}

/// The `lt` surgery outside leaf mode, the mirror of `spec_rt_rec`.
pub open spec fn spec_lt_rec(e: Expr, cur: Expr) -> (Expr, Expr, bool)
    decreases e,
{
    match e {
        Expr::Lam(b) => {
            if *b == Expr::Slot {
                (Expr::Slot, spec_lam(cur), true)
            } else {
                let (b2, c2, f) = spec_lt_rec(*b, cur);
                (spec_lam(b2), c2, f)
            }
        },
        Expr::App(l, r) => {
            if *r == Expr::Slot {
                if cur == Expr::Hole {
                    (Expr::Slot, *l, true)
                } else {
                    (spec_app(Expr::Slot, cur), *l, true)
                }
            } else if *l == Expr::Slot {
                (Expr::Slot, spec_app(cur, *r), true)
            } else {
                let (l2, c2, f) = spec_lt_rec(*l, cur);
                if f {
                    (Expr::App(Box::new(l2), r), c2, true)
                } else {
                    let (r2, c3, f2) = spec_lt_rec(*r, c2);
                    (Expr::App(Box::new(l2), Box::new(r2)), c3, f2)
                }
            }
        },
        _ => (e, cur, false),
    }
}

/// The leaf-mode `rt` surgery: at the first application whose left side
/// has the `Slot` as rightmost leaf, the slot position takes the focus,
/// the leftmost leaf of the right side becomes the new focus, and the
/// `Slot` takes that leaf's place.
pub open spec fn spec_leafswap_rt(e: Expr, cur: Expr) -> (Expr, Expr, bool)
    decreases e,
{
    match e {
        Expr::Lam(b) => {
            let (b2, c2, f) = spec_leafswap_rt(*b, cur);
            (spec_lam(b2), c2, f)
        },
        Expr::App(l, r) => {
            if l.spec_rightmost() == Expr::Slot {
                let l2 = spec_replace_rightmost(*l, cur);
                let (r2, leaf) = spec_extract_leftmost(*r);
                (Expr::App(Box::new(l2), Box::new(r2)), leaf, true)
            } else {
                let (l2, c2, f) = spec_leafswap_rt(*l, cur);
                if f {
                    (Expr::App(Box::new(l2), r), c2, true)
                } else {
                    let (r2, c3, f2) = spec_leafswap_rt(*r, c2);
                    (Expr::App(Box::new(l2), Box::new(r2)), c3, f2)
                }
            }
        },
        _ => (e, cur, false),
    }
}

/// The leaf-mode `lt` surgery, the mirror of `spec_leafswap_rt`.
pub open spec fn spec_leafswap_lt(e: Expr, cur: Expr) -> (Expr, Expr, bool)
    decreases e,
{
    match e {
        Expr::Lam(b) => {
            let (b2, c2, f) = spec_leafswap_lt(*b, cur);
            (spec_lam(b2), c2, f)
        },
        Expr::App(l, r) => {
            if r.spec_leftmost() == Expr::Slot {
                let r2 = spec_replace_leftmost(*r, cur);
                let (l2, leaf) = spec_extract_rightmost(*l);
                (Expr::App(Box::new(l2), Box::new(r2)), leaf, true)
            } else {
                let (l2, c2, f) = spec_leafswap_lt(*l, cur);
                if f {
                    (Expr::App(Box::new(l2), r), c2, true)
                } else {
                    let (r2, c3, f2) = spec_leafswap_lt(*r, c2);
                    (Expr::App(Box::new(l2), Box::new(r2)), c3, f2)
                }
            }
        },
        _ => (e, cur, false),
    }
}

/// Perform the `up` surgery; see `spec_up_rec`.
fn up_rec(e: Expr, cur: Expr) -> (res: (Expr, Expr, bool))
    ensures
        res == spec_up_rec(e, cur),
    decreases e,
{
    match e {
        Expr::Lam(b) => {
            if matches!(*b, Expr::Slot) {
                (Expr::Slot, lam(cur), true)
            } else {
                let (b2, c2, f) = up_rec(*b, cur);
                (lam(b2), c2, f)
            }
        },
        Expr::App(l, r) => {
            if matches!(*l, Expr::Slot) {
                if matches!(cur, Expr::Hole) {
                    (Expr::Slot, *r, true)
                } else {
                    (Expr::Slot, app(cur, *r), true)
                }
            } else if matches!(*r, Expr::Slot) {
                if matches!(cur, Expr::Hole) {
                    (Expr::Slot, *l, true)
                } else {
                    (Expr::Slot, app(*l, cur), true)
                }
            } else {
                let (l2, c2, f) = up_rec(*l, cur);
                if f {
                    (Expr::App(Box::new(l2), r), c2, true)
                } else {
                    let (r2, c3, f2) = up_rec(*r, c2);
                    (Expr::App(Box::new(l2), Box::new(r2)), c3, f2)
                }
            }
        },
        other => (other, cur, false),
    }
}

/// Perform the `rt` surgery outside leaf mode; see `spec_rt_rec`.
fn rt_rec(e: Expr, cur: Expr) -> (res: (Expr, Expr, bool))
    ensures
        res == spec_rt_rec(e, cur),
    decreases e,
{
    match e {
        Expr::Lam(b) => {
            if matches!(*b, Expr::Slot) {
                (Expr::Slot, lam(cur), true)
            } else {
                let (b2, c2, f) = rt_rec(*b, cur);
                (lam(b2), c2, f)
            }
        },
        Expr::App(l, r) => {
            if matches!(*l, Expr::Slot) {
                if matches!(cur, Expr::Hole) {
                    (Expr::Slot, *r, true)
                } else {
                    (app(cur, Expr::Slot), *r, true)
                }
            } else if matches!(*r, Expr::Slot) {
                (Expr::Slot, app(*l, cur), true)
            } else {
                let (l2, c2, f) = rt_rec(*l, cur);
                if f {
                    (Expr::App(Box::new(l2), r), c2, true)
                } else {
                    let (r2, c3, f2) = rt_rec(*r, c2);
                    (Expr::App(Box::new(l2), Box::new(r2)), c3, f2)
                }
            }
        },
        other => (other, cur, false),
    }
}

/// Perform the `lt` surgery outside leaf mode; see `spec_lt_rec`.
fn lt_rec(e: Expr, cur: Expr) -> (res: (Expr, Expr, bool))
    ensures
        res == spec_lt_rec(e, cur),
    decreases e,
{
    match e {
        Expr::Lam(b) => {
            if matches!(*b, Expr::Slot) {
                (Expr::Slot, lam(cur), true)
            } else {
                let (b2, c2, f) = lt_rec(*b, cur);
                (lam(b2), c2, f)
            }
        },
        Expr::App(l, r) => {
            if matches!(*r, Expr::Slot) {
                if matches!(cur, Expr::Hole) {
                    (Expr::Slot, *l, true)
                } else {
                    (app(Expr::Slot, cur), *l, true)
                }
            } else if matches!(*l, Expr::Slot) {
                (Expr::Slot, app(cur, *r), true)
            } else {
                let (l2, c2, f) = lt_rec(*l, cur);
                if f {
                    (Expr::App(Box::new(l2), r), c2, true)
                } else {
                    let (r2, c3, f2) = lt_rec(*r, c2);
                    (Expr::App(Box::new(l2), Box::new(r2)), c3, f2)
                }
            }
        },
        other => (other, cur, false),
    }
}

/// Perform the leaf-mode `rt` surgery; see `spec_leafswap_rt`.
fn leafswap_rt(e: Expr, cur: Expr) -> (res: (Expr, Expr, bool))
    ensures
        res == spec_leafswap_rt(e, cur),
    decreases e,
{
    match e {
        Expr::Lam(b) => {
            let (b2, c2, f) = leafswap_rt(*b, cur);
            (lam(b2), c2, f)
        },
        Expr::App(l, r) => {
            if matches!(l.rightmost(), Expr::Slot) {
                let l2 = replace_rightmost(*l, cur);
                let (r2, leaf) = extract_leftmost(*r);
                (Expr::App(Box::new(l2), Box::new(r2)), leaf, true)
            } else {
                let (l2, c2, f) = leafswap_rt(*l, cur);
                if f {
                    (Expr::App(Box::new(l2), r), c2, true)
                } else {
                    let (r2, c3, f2) = leafswap_rt(*r, c2);
                    (Expr::App(Box::new(l2), Box::new(r2)), c3, f2)
                }
            }
        },
        other => (other, cur, false),
    }
}

/// Perform the leaf-mode `lt` surgery; see `spec_leafswap_lt`.
fn leafswap_lt(e: Expr, cur: Expr) -> (res: (Expr, Expr, bool))
    ensures
        res == spec_leafswap_lt(e, cur),
    decreases e,
{
    match e {
        Expr::Lam(b) => {
            let (b2, c2, f) = leafswap_lt(*b, cur);
            (lam(b2), c2, f)
        },
        Expr::App(l, r) => {
            if matches!(r.leftmost(), Expr::Slot) {
                let r2 = replace_leftmost(*r, cur);
                let (l2, leaf) = extract_rightmost(*l);
                (Expr::App(Box::new(l2), Box::new(r2)), leaf, true)
            } else {
                let (l2, c2, f) = leafswap_lt(*l, cur);
                if f {
                    (Expr::App(Box::new(l2), r), c2, true)
                } else {
                    let (r2, c3, f2) = leafswap_lt(*r, c2);
                    (Expr::App(Box::new(l2), Box::new(r2)), c3, f2)
                }
            }
        },
        other => (other, cur, false),
    }
}

/// After every command, a focus that is no longer a single variable or
/// hole drops out of leaf mode.
pub open spec fn spec_normalize_leaf(s: EditorState) -> EditorState {
    match s.cursor {
        Expr::Var(_) => s,
        Expr::Hole => s,
        _ => EditorState { leaf_mode: LeafMode::No, ..s },
    }
}

/// The effect of one command on the editor state, before the leaf-mode
/// normalisation, together with its diagnostic.
pub open spec fn spec_cmd_raw(s: EditorState, c: Cmd) -> (EditorState, Diag) {
    match c {
        Cmd::Backspace => (EditorState { cursor: Expr::Hole, ..s }, Diag::Quiet),
        Cmd::Lambda => if s.cursor == Expr::Hole {
            (
                EditorState { expr: s.expr.spec_replace_slot(spec_lam(Expr::Slot)).0, ..s },
                Diag::Quiet,
            )
        } else {
            (EditorState { cursor: spec_lam(s.cursor), ..s }, Diag::Quiet)
        },
        Cmd::Beta => if s.cursor.beta_fits() {
            if s.cursor.spec_is_redex() {
                (EditorState { cursor: s.cursor.spec_beta(), ..s }, Diag::Quiet)
            } else {
                (s, Diag::BoopBeta)
            }
        } else {
            (s, Diag::BoopBeta)
        },
        Cmd::Redux => match s.cursor.spec_redux_opt() {
            Some(red) => (
                EditorState {
                    expr: s.expr.spec_replace_slot(spec_detach_redux(s.cursor)).0,
                    cursor: red,
                    ..s
                },
                Diag::Quiet,
            ),
            None => (s, Diag::BoopRedux),
        },
        Cmd::Down => match s.cursor {
            Expr::Lam(b) => (
                EditorState {
                    expr: s.expr.spec_replace_slot(spec_lam(Expr::Slot)).0,
                    cursor: *b,
                    ..s
                },
                Diag::Quiet,
            ),
            Expr::App(l, r) => (
                EditorState {
                    expr: s.expr.spec_replace_slot(spec_app(Expr::Slot, *r)).0,
                    cursor: *l,
                    ..s
                },
                Diag::Quiet,
            ),
            Expr::Hole => if s.leaf_mode == LeafMode::Leaf {
                (s, Diag::Boop)
            } else {
                (EditorState { leaf_mode: LeafMode::Leaf, ..s }, Diag::Quiet)
            },
            Expr::Var(_) => if s.leaf_mode == LeafMode::Leaf {
                (s, Diag::Boop)
            } else {
                (EditorState { leaf_mode: LeafMode::Leaf, ..s }, Diag::Quiet)
            },
            _ => (s, Diag::Boop),
        },
        Cmd::Up => if s.leaf_mode == LeafMode::Leaf {
            (EditorState { leaf_mode: LeafMode::No, ..s }, Diag::Quiet)
        } else {
            let (e2, c2, f) = spec_up_rec(s.expr, s.cursor);
            (
                EditorState { expr: e2, cursor: c2, ..s },
                if f {
                    Diag::Quiet
                } else {
                    Diag::Boop
                },
            )
        },
        Cmd::Top => (
            EditorState {
                expr: Expr::Slot,
                cursor: s.expr.spec_replace_slot(s.cursor).0,
                ..s
            },
            Diag::Quiet,
        ),
        Cmd::LeftMost => {
            let (c2, leaf) = spec_extract_leftmost(s.cursor);
            (
                EditorState {
                    expr: s.expr.spec_replace_slot(c2).0,
                    cursor: leaf,
                    leaf_mode: LeafMode::Leaf,
                },
                Diag::Quiet,
            )
        },
        Cmd::RightMost => {
            let (c2, leaf) = spec_extract_rightmost(s.cursor);
            (
                EditorState {
                    expr: s.expr.spec_replace_slot(c2).0,
                    cursor: leaf,
                    leaf_mode: LeafMode::Leaf,
                },
                Diag::Quiet,
            )
        },
        Cmd::LeftSib => if s.leaf_mode == LeafMode::Leaf {
            let (e2, c2, f) = spec_leafswap_lt(s.expr, s.cursor);
            if f {
                (EditorState { expr: e2, cursor: c2, ..s }, Diag::Quiet)
            } else {
                (
                    EditorState { expr: e2, cursor: c2, leaf_mode: LeafMode::No },
                    Diag::Quiet,
                )
            }
        } else {
            let (e2, c2, f) = spec_lt_rec(s.expr, s.cursor);
            (
                EditorState { expr: e2, cursor: c2, ..s },
                if f {
                    Diag::Quiet
                } else {
                    Diag::Boop
                },
            )
        },
        Cmd::RightSib => if s.leaf_mode == LeafMode::Leaf {
            let (e2, c2, f) = spec_leafswap_rt(s.expr, s.cursor);
            if f {
                (EditorState { expr: e2, cursor: c2, ..s }, Diag::Quiet)
            } else {
                (
                    EditorState { expr: e2, cursor: c2, leaf_mode: LeafMode::No },
                    Diag::Quiet,
                )
            }
        } else {
            let (e2, c2, f) = spec_rt_rec(s.expr, s.cursor);
            (
                EditorState { expr: e2, cursor: c2, ..s },
                if f {
                    Diag::Quiet
                } else {
                    Diag::Boop
                },
            )
        },
        Cmd::ApplyLeft => (
            EditorState {
                expr: s.expr.spec_replace_slot(spec_app(s.cursor, Expr::Slot)).0,
                cursor: Expr::Hole,
                ..s
            },
            Diag::Quiet,
        ),
        Cmd::ApplyRight => (
            EditorState {
                expr: s.expr.spec_replace_slot(spec_app(Expr::Slot, s.cursor)).0,
                cursor: Expr::Hole,
                ..s
            },
            Diag::Quiet,
        ),
        Cmd::Plus => if s.cursor == Expr::Hole {
            (EditorState { cursor: spec_plus(), ..s }, Diag::Quiet)
        } else {
            (EditorState { cursor: spec_app(spec_plus(), s.cursor), ..s }, Diag::Quiet)
        },
        Cmd::Times => if s.cursor == Expr::Hole {
            (EditorState { cursor: spec_times(), ..s }, Diag::Quiet)
        } else {
            (EditorState { cursor: spec_app(spec_times(), s.cursor), ..s }, Diag::Quiet)
        },
        Cmd::Power => if s.cursor == Expr::Hole {
            (EditorState { cursor: spec_power(), ..s }, Diag::Quiet)
        } else {
            (EditorState { cursor: spec_app(spec_power(), s.cursor), ..s }, Diag::Quiet)
        },
        Cmd::Dot => if s.cursor == Expr::Hole {
            (EditorState { leaf_mode: LeafMode::InputDot, ..s }, Diag::Quiet)
        } else {
            (
                EditorState {
                    expr: s.expr.spec_replace_slot(spec_app(s.cursor, Expr::Slot)).0,
                    cursor: Expr::Hole,
                    leaf_mode: LeafMode::InputDot,
                },
                Diag::Quiet,
            )
        },
        Cmd::Num(n) => if s.cursor == Expr::Hole {
            if s.leaf_mode == LeafMode::InputDot {
                (
                    EditorState { cursor: Expr::Var(n), leaf_mode: LeafMode::Leaf, ..s },
                    Diag::Quiet,
                )
            } else {
                (EditorState { cursor: spec_church(n as nat), ..s }, Diag::Quiet)
            }
        } else {
            (
                EditorState { cursor: spec_app(s.cursor, spec_church(n as nat)), ..s },
                Diag::Quiet,
            )
        },
        Cmd::VarLit(n) => if s.cursor == Expr::Hole {
            (EditorState { cursor: Expr::Var(n), ..s }, Diag::Quiet)
        } else {
            (EditorState { cursor: spec_app(s.cursor, Expr::Var(n)), ..s }, Diag::Quiet)
        },
        Cmd::Unknown(tok) => (s, Diag::Unrecognized(tok)),
    }
}

/// The effect of one command on the editor state: `spec_cmd_raw` followed
/// by the leaf-mode normalisation.
pub open spec fn spec_exec_cmd(s: EditorState, c: Cmd) -> (EditorState, Diag) {
    let (s2, d) = spec_cmd_raw(s, c);
    (spec_normalize_leaf(s2), d)
}

impl EditorState {
    /// Execute one command, per `spec_cmd_raw`.
    fn cmd_raw(&mut self, c: Cmd) -> (d: Diag)
        ensures
            *final(self) == spec_cmd_raw(*old(self), c).0,
            d == spec_cmd_raw(*old(self), c).1,
    {
        match c {
            Cmd::Backspace => {
                self.cursor = Expr::Hole;
                Diag::Quiet
            },
            Cmd::Lambda => {
                if matches!(self.cursor, Expr::Hole) {
                    let _back = self.expr.replace_slot(lam(Expr::Slot));
                    Diag::Quiet
                } else {
                    let mut cur = Expr::Hole;
                    core::mem::swap(&mut self.cursor, &mut cur);
                    self.cursor = lam(cur);
                    Diag::Quiet
                }
            },
            Cmd::Beta => {
                if self.cursor.beta_fits_check() {
                    if self.cursor.beta() {
                        Diag::Quiet
                    } else {
                        Diag::BoopBeta
                    }
                } else {
                    Diag::BoopBeta
                }
            },
            Cmd::Redux => {
                let mut cur = Expr::Hole;
                core::mem::swap(&mut self.cursor, &mut cur);
                let (c2, red) = extract_redux(cur);
                match red {
                    Some(x) => {
                        let _back = self.expr.replace_slot(c2);
                        self.cursor = x;
                        Diag::Quiet
                    },
                    None => {
                        self.cursor = c2;
                        Diag::BoopRedux
                    },
                }
            },
            Cmd::Down => {
                let mut cur = Expr::Hole;
                core::mem::swap(&mut self.cursor, &mut cur);
                match cur {
                    Expr::Lam(b) => {
                        let _back = self.expr.replace_slot(lam(Expr::Slot));
                        self.cursor = *b;
                        Diag::Quiet
                    },
                    Expr::App(l, r) => {
                        let _back = self.expr.replace_slot(Expr::App(Box::new(Expr::Slot), r));
                        self.cursor = *l;
                        Diag::Quiet
                    },
                    other => {
                        let is_leaf = matches!(other, Expr::Hole) || matches!(
                            other,
                            Expr::Var(_),
                        );
                        self.cursor = other;
                        if is_leaf {
                            if self.leaf_mode == LeafMode::Leaf {
                                Diag::Boop
                            } else {
                                self.leaf_mode = LeafMode::Leaf;
                                Diag::Quiet
                            }
                        } else {
                            Diag::Boop
                        }
                    },
                }
            },
            Cmd::Up => {
                if self.leaf_mode == LeafMode::Leaf {
                    self.leaf_mode = LeafMode::No;
                    Diag::Quiet
                } else {
                    let mut e = Expr::Hole;
                    core::mem::swap(&mut self.expr, &mut e);
                    let mut cur = Expr::Hole;
                    core::mem::swap(&mut self.cursor, &mut cur);
                    let (e2, c2, f) = up_rec(e, cur);
                    self.expr = e2;
                    self.cursor = c2;
                    if f {
                        Diag::Quiet
                    } else {
                        Diag::Boop
                    }
                }
            },
            Cmd::Top => {
                let mut cur = Expr::Hole;
                core::mem::swap(&mut self.cursor, &mut cur);
                let _back = self.expr.replace_slot(cur);
                let mut e = Expr::Slot;
                core::mem::swap(&mut self.expr, &mut e);
                self.cursor = e;
                Diag::Quiet
            },
            Cmd::LeftMost => {
                let mut cur = Expr::Hole;
                core::mem::swap(&mut self.cursor, &mut cur);
                let (c2, leaf) = extract_leftmost(cur);
                let _back = self.expr.replace_slot(c2);
                self.cursor = leaf;
                self.leaf_mode = LeafMode::Leaf;
                Diag::Quiet
            },
            Cmd::RightMost => {
                let mut cur = Expr::Hole;
                core::mem::swap(&mut self.cursor, &mut cur);
                let (c2, leaf) = extract_rightmost(cur);
                let _back = self.expr.replace_slot(c2);
                self.cursor = leaf;
                self.leaf_mode = LeafMode::Leaf;
                Diag::Quiet
            },
            Cmd::LeftSib => {
                let mut e = Expr::Hole;
                core::mem::swap(&mut self.expr, &mut e);
                let mut cur = Expr::Hole;
                core::mem::swap(&mut self.cursor, &mut cur);
                if self.leaf_mode == LeafMode::Leaf {
                    let (e2, c2, f) = leafswap_lt(e, cur);
                    self.expr = e2;
                    self.cursor = c2;
                    if !f {
                        self.leaf_mode = LeafMode::No;
                    }
                    Diag::Quiet
                } else {
                    let (e2, c2, f) = lt_rec(e, cur);
                    self.expr = e2;
                    self.cursor = c2;
                    if f {
                        Diag::Quiet
                    } else {
                        Diag::Boop
                    }
                }
            },
            Cmd::RightSib => {
                let mut e = Expr::Hole;
                core::mem::swap(&mut self.expr, &mut e);
                let mut cur = Expr::Hole;
                core::mem::swap(&mut self.cursor, &mut cur);
                if self.leaf_mode == LeafMode::Leaf {
                    let (e2, c2, f) = leafswap_rt(e, cur);
                    self.expr = e2;
                    self.cursor = c2;
                    if !f {
                        self.leaf_mode = LeafMode::No;
                    }
                    Diag::Quiet
                } else {
                    let (e2, c2, f) = rt_rec(e, cur);
                    self.expr = e2;
                    self.cursor = c2;
                    if f {
                        Diag::Quiet
                    } else {
                        Diag::Boop
                    }
                }
            },
            Cmd::ApplyLeft => {
                let mut cur = Expr::Hole;
                core::mem::swap(&mut self.cursor, &mut cur);
                let _back = self.expr.replace_slot(app(cur, Expr::Slot));
                Diag::Quiet
            },
            Cmd::ApplyRight => {
                let mut cur = Expr::Hole;
                core::mem::swap(&mut self.cursor, &mut cur);
                let _back = self.expr.replace_slot(app(Expr::Slot, cur));
                Diag::Quiet
            },
            Cmd::Plus => {
                if matches!(self.cursor, Expr::Hole) {
                    self.cursor = combinator_plus();
                } else {
                    let mut cur = Expr::Hole;
                    core::mem::swap(&mut self.cursor, &mut cur);
                    self.cursor = app(combinator_plus(), cur);
                }
                Diag::Quiet
            },
            Cmd::Times => {
                if matches!(self.cursor, Expr::Hole) {
                    self.cursor = combinator_times();
                } else {
                    let mut cur = Expr::Hole;
                    core::mem::swap(&mut self.cursor, &mut cur);
                    self.cursor = app(combinator_times(), cur);
                }
                Diag::Quiet
            },
            Cmd::Power => {
                if matches!(self.cursor, Expr::Hole) {
                    self.cursor = combinator_power();
                } else {
                    let mut cur = Expr::Hole;
                    core::mem::swap(&mut self.cursor, &mut cur);
                    self.cursor = app(combinator_power(), cur);
                }
                Diag::Quiet
            },
            Cmd::Dot => {
                if matches!(self.cursor, Expr::Hole) {
                    self.leaf_mode = LeafMode::InputDot;
                } else {
                    let mut cur = Expr::Hole;
                    core::mem::swap(&mut self.cursor, &mut cur);
                    let _back = self.expr.replace_slot(app(cur, Expr::Slot));
                    self.leaf_mode = LeafMode::InputDot;
                }
                Diag::Quiet
            },
            Cmd::Num(n) => {
                if matches!(self.cursor, Expr::Hole) {
                    if self.leaf_mode == LeafMode::InputDot {
                        self.cursor = Expr::Var(n);
                        self.leaf_mode = LeafMode::Leaf;
                    } else {
                        self.cursor = Expr::from_nat(n);
                    }
                } else {
                    let mut cur = Expr::Hole;
                    core::mem::swap(&mut self.cursor, &mut cur);
                    self.cursor = app(cur, Expr::from_nat(n));
                }
                Diag::Quiet
            },
            Cmd::VarLit(n) => {
                if matches!(self.cursor, Expr::Hole) {
                    self.cursor = Expr::Var(n);
                } else {
                    let mut cur = Expr::Hole;
                    core::mem::swap(&mut self.cursor, &mut cur);
                    self.cursor = app(cur, Expr::Var(n));
                }
                Diag::Quiet
            },
            Cmd::Unknown(tok) => Diag::Unrecognized(tok),
        }
    }

    /// Execute one command: the structural surgery of `spec_cmd_raw`
    /// followed by the leaf-mode normalisation, returning the diagnostic.
    pub fn exec_cmd(&mut self, c: Cmd) -> (d: Diag)
        ensures
            *final(self) == spec_exec_cmd(*old(self), c).0,
            d == spec_exec_cmd(*old(self), c).1,
            old(self).wf() ==> final(self).wf(),
    {
        proof {
            if old(self).wf() {
                lemma_exec_cmd_wf(*old(self), c);
            }
        }
        let d = self.cmd_raw(c);
        if !(matches!(self.cursor, Expr::Var(_)) || matches!(self.cursor, Expr::Hole)) {
            self.leaf_mode = LeafMode::No;
        }
        d
    }
}

/// Slot counts of freshly built nodes.
proof fn lemma_slots_build(x: Expr, y: Expr)
    ensures
        spec_lam(x).num_slots() == x.num_slots(),
        spec_app(x, y).num_slots() == x.num_slots() + y.num_slots(),
{
    assert(spec_lam(x) == Expr::Lam(Box::new(x)));
    assert(spec_app(x, y) == Expr::App(Box::new(x), Box::new(y)));
}

/// Writing into the slot finds one exactly when the term has one, and
/// the slot count changes accordingly.
proof fn lemma_replace_slot_slots(e: Expr, to: Expr)
    ensures
        e.spec_replace_slot(to).1 == (e.num_slots() > 0),
        e.spec_replace_slot(to).1 ==> e.spec_replace_slot(to).0.num_slots() + 1 == e.num_slots()
            + to.num_slots(),
        !e.spec_replace_slot(to).1 ==> e.spec_replace_slot(to).0 == e,
    decreases e,
{
    match e {
        Expr::Lam(b) => lemma_replace_slot_slots(*b, to),
        Expr::App(l, r) => {
            lemma_replace_slot_slots(*l, to);
            lemma_replace_slot_slots(*r, to);
        },
        _ => {},
    }
}

/// Shifting changes no slot count.
proof fn lemma_shift_slots(e: Expr, v: int, a: int)
    ensures
        e.spec_shift(v, a).num_slots() == e.num_slots(),
    decreases e,
{
    match e {
        Expr::Lam(b) => lemma_shift_slots(*b, v + 1, a),
        Expr::App(l, r) => {
            lemma_shift_slots(*l, v, a);
            lemma_shift_slots(*r, v, a);
        },
        _ => {},
    }
}

/// Substitution of slot-free terms yields a slot-free term.
proof fn lemma_subst_slots(e: Expr, v: int, r: Expr)
    requires
        e.num_slots() == 0,
        r.num_slots() == 0,
    ensures
        e.spec_subst(v, r).num_slots() == 0,
    decreases e,
{
    match e {
        Expr::Var(u) => {
            if u == v {
                lemma_shift_slots(r, 0, v);
            }
        },
        Expr::Lam(b) => lemma_subst_slots(*b, v + 1, r),
        Expr::App(l, r2) => {
            lemma_subst_slots(*l, v, r);
            lemma_subst_slots(*r2, v, r);
        },
        _ => {},
    }
}

/// A beta step on a slot-free term yields a slot-free term.
proof fn lemma_beta_slots(e: Expr)
    requires
        e.num_slots() == 0,
    ensures
        e.spec_beta().num_slots() == 0,
{
    match e {
        Expr::App(l, r) => {
            assert(e.num_slots() == l.num_slots() + r.num_slots());
            match *l {
                Expr::Lam(b) => {
                    assert(l.num_slots() == b.num_slots());
                    lemma_subst_slots(*b, 0, *r);
                },
                _ => {},
            }
        },
        _ => {},
    }
}

/// Church numerals hold no slot.
proof fn lemma_church_slots(n: nat)
    ensures
        spec_church(n).num_slots() == 0,
    decreases n,
{
    lemma_church_body_slots(n);
    let body = crate::expr::spec_church_body(n);
    assert(Expr::Lam(Box::new(body)).num_slots() == body.num_slots());
    assert(spec_church(n) == Expr::Lam(Box::new(Expr::Lam(Box::new(body)))));
    assert(Expr::Lam(Box::new(Expr::Lam(Box::new(body)))).num_slots() == Expr::Lam(
        Box::new(body),
    ).num_slots());
}

proof fn lemma_church_body_slots(n: nat)
    ensures
        crate::expr::spec_church_body(n).num_slots() == 0,
    decreases n,
{
    if n > 0 {
        lemma_church_body_slots((n - 1) as nat);
        let prev = crate::expr::spec_church_body((n - 1) as nat);
        assert(crate::expr::spec_church_body(n) == Expr::App(
            Box::new(Expr::Var(1)),
            Box::new(prev),
        ));
        assert(Expr::App(Box::new(Expr::Var(1)), Box::new(prev)).num_slots() == Expr::Var(
            1,
        ).num_slots() + prev.num_slots());
    } else {
        assert(crate::expr::spec_church_body(0) == Expr::Var(0));
        assert(Expr::Var(0).num_slots() == 0);
    }
}

/// In a slot-free term, detaching the first redex leaves exactly one slot
/// and hands back a slot-free redex.
proof fn lemma_detach_slots(e: Expr)
    requires
        e.num_slots() == 0,
    ensures
        e.spec_redux_opt() is Some ==> spec_detach_redux(e).num_slots() == 1,
        e.spec_redux_opt() matches Some(x) ==> x.num_slots() == 0,
    decreases e,
{
    match e {
        Expr::Lam(b) => lemma_detach_slots(*b),
        Expr::App(l, r) => {
            lemma_detach_slots(*l);
            lemma_detach_slots(*r);
        },
        _ => {},
    }
}

/// The leftmost or rightmost leaf of a slot-free term is not the slot.
proof fn lemma_ends_of_slot_free(e: Expr)
    requires
        e.num_slots() == 0,
    ensures
        e.spec_leftmost() != Expr::Slot,
        e.spec_rightmost() != Expr::Slot,
    decreases e,
{
    match e {
        Expr::Lam(b) => lemma_ends_of_slot_free(*b),
        Expr::App(l, r) => {
            lemma_ends_of_slot_free(*l);
            lemma_ends_of_slot_free(*r);
        },
        _ => {},
    }
}

/// Extracting a leaf of a slot-free term yields a one-slot term and a
/// slot-free leaf.
proof fn lemma_extract_ends_slots(e: Expr)
    requires
        e.num_slots() == 0,
    ensures
        spec_extract_leftmost(e).0.num_slots() == 1,
        spec_extract_leftmost(e).1.num_slots() == 0,
        spec_extract_rightmost(e).0.num_slots() == 1,
        spec_extract_rightmost(e).1.num_slots() == 0,
    decreases e,
{
    match e {
        Expr::Lam(b) => lemma_extract_ends_slots(*b),
        Expr::App(l, r) => {
            lemma_extract_ends_slots(*l);
            lemma_extract_ends_slots(*r);
        },
        _ => {},
    }
}

/// Replacing an end leaf exchanges that leaf's slot count for the
/// replacement's.
proof fn lemma_replace_ends_slots(e: Expr, to: Expr)
    ensures
        spec_replace_leftmost(e, to).num_slots() + e.spec_leftmost().num_slots()
            == e.num_slots() + to.num_slots(),
        spec_replace_rightmost(e, to).num_slots() + e.spec_rightmost().num_slots()
            == e.num_slots() + to.num_slots(),
    decreases e,
{
    match e {
        Expr::Lam(b) => lemma_replace_ends_slots(*b, to),
        Expr::App(l, r) => {
            lemma_replace_ends_slots(*l, to);
            lemma_replace_ends_slots(*r, to);
        },
        _ => {},
    }
}

/// On a slot-free context piece the climb surgeries find nothing and
/// change nothing.
proof fn lemma_climb_no_slot(e: Expr, cur: Expr)
    requires
        e.num_slots() == 0,
    ensures
        spec_up_rec(e, cur) == (e, cur, false),
        spec_rt_rec(e, cur) == (e, cur, false),
        spec_lt_rec(e, cur) == (e, cur, false),
        spec_leafswap_rt(e, cur) == (e, cur, false),
        spec_leafswap_lt(e, cur) == (e, cur, false),
    decreases e,
{
    match e {
        Expr::Lam(b) => lemma_climb_no_slot(*b, cur),
        Expr::App(l, r) => {
            lemma_ends_of_slot_free(*l);
            lemma_ends_of_slot_free(*r);
            lemma_climb_no_slot(*l, cur);
            lemma_climb_no_slot(*r, cur);
        },
        _ => {},
    }
}

/// On a context with exactly one slot and a slot-free focus, a climb
/// surgery that finds the parent keeps exactly one slot in the context
/// and none in the focus; one that fails changes nothing.
proof fn lemma_up_rec_slots(e: Expr, cur: Expr)
    requires
        e.num_slots() == 1,
        cur.num_slots() == 0,
    ensures
        ({
            let (e2, c2, f) = spec_up_rec(e, cur);
            (f ==> e2.num_slots() == 1 && c2.num_slots() == 0) && (!f ==> e2 == e && c2 == cur)
        }),
    decreases e,
{
    match e {
        Expr::Lam(b) => {
            lemma_slots_build(cur, cur);
            if *b != Expr::Slot {
                lemma_up_rec_slots(*b, cur);
            }
        },
        Expr::App(l, r) => {
            lemma_slots_build(cur, *r);
            lemma_slots_build(*l, cur);
            lemma_slots_build(cur, Expr::Slot);
            lemma_slots_build(Expr::Slot, cur);
            if *l == Expr::Slot || *r == Expr::Slot {
            } else if l.num_slots() == 1 {
                lemma_up_rec_slots(*l, cur);
                lemma_climb_no_slot(*r, cur);
            } else {
                lemma_climb_no_slot(*l, cur);
                lemma_up_rec_slots(*r, cur);
            }
        },
        _ => {},
    }
}

/// As `lemma_up_rec_slots`, for the `rt` climb.
proof fn lemma_rt_rec_slots(e: Expr, cur: Expr)
    requires
        e.num_slots() == 1,
        cur.num_slots() == 0,
    ensures
        ({
            let (e2, c2, f) = spec_rt_rec(e, cur);
            (f ==> e2.num_slots() == 1 && c2.num_slots() == 0) && (!f ==> e2 == e && c2 == cur)
        }),
    decreases e,
{
    match e {
        Expr::Lam(b) => {
            lemma_slots_build(cur, cur);
            if *b != Expr::Slot {
                lemma_rt_rec_slots(*b, cur);
            }
        },
        Expr::App(l, r) => {
            lemma_slots_build(cur, *r);
            lemma_slots_build(*l, cur);
            lemma_slots_build(cur, Expr::Slot);
            lemma_slots_build(Expr::Slot, cur);
            if *l == Expr::Slot || *r == Expr::Slot {
            } else if l.num_slots() == 1 {
                lemma_rt_rec_slots(*l, cur);
                lemma_climb_no_slot(*r, cur);
            } else {
                lemma_climb_no_slot(*l, cur);
                lemma_rt_rec_slots(*r, cur);
            }
        },
        _ => {},
    }
}

/// As `lemma_up_rec_slots`, for the `lt` climb.
proof fn lemma_lt_rec_slots(e: Expr, cur: Expr)
    requires
        e.num_slots() == 1,
        cur.num_slots() == 0,
    ensures
        ({
            let (e2, c2, f) = spec_lt_rec(e, cur);
            (f ==> e2.num_slots() == 1 && c2.num_slots() == 0) && (!f ==> e2 == e && c2 == cur)
        }),
    decreases e,
{
    match e {
        Expr::Lam(b) => {
            lemma_slots_build(cur, cur);
            if *b != Expr::Slot {
                lemma_lt_rec_slots(*b, cur);
            }
        },
        Expr::App(l, r) => {
            lemma_slots_build(cur, *r);
            lemma_slots_build(*l, cur);
            lemma_slots_build(cur, Expr::Slot);
            lemma_slots_build(Expr::Slot, cur);
            if *l == Expr::Slot || *r == Expr::Slot {
            } else if l.num_slots() == 1 {
                lemma_lt_rec_slots(*l, cur);
                lemma_climb_no_slot(*r, cur);
            } else {
                lemma_climb_no_slot(*l, cur);
                lemma_lt_rec_slots(*r, cur);
            }
        },
        _ => {},
    }
}

/// As `lemma_up_rec_slots`, for the leaf-mode sibling swaps.
proof fn lemma_leafswap_slots(e: Expr, cur: Expr)
    requires
        e.num_slots() == 1,
        cur.num_slots() == 0,
    ensures
        ({
            let (e2, c2, f) = spec_leafswap_rt(e, cur);
            (f ==> e2.num_slots() == 1 && c2.num_slots() == 0) && (!f ==> e2 == e && c2 == cur)
        }),
        ({
            let (e2, c2, f) = spec_leafswap_lt(e, cur);
            (f ==> e2.num_slots() == 1 && c2.num_slots() == 0) && (!f ==> e2 == e && c2 == cur)
        }),
    decreases e,
{
    match e {
        Expr::Lam(b) => lemma_leafswap_slots(*b, cur),
        Expr::App(l, r) => {
            if l.spec_rightmost() == Expr::Slot {
                assert(l.num_slots() >= 1) by {
                    lemma_rightmost_slot_count(*l);
                }
                lemma_replace_ends_slots(*l, cur);
                lemma_extract_ends_slots(*r);
            }
            if r.spec_leftmost() == Expr::Slot {
                assert(r.num_slots() >= 1) by {
                    lemma_leftmost_slot_count(*r);
                }
                lemma_replace_ends_slots(*r, cur);
                lemma_extract_ends_slots(*l);
            }
            if l.num_slots() == 1 {
                lemma_leafswap_slots(*l, cur);
                lemma_climb_no_slot(*r, cur);
                lemma_ends_of_slot_free(*r);
            } else {
                lemma_climb_no_slot(*l, cur);
                lemma_ends_of_slot_free(*l);
                lemma_leafswap_slots(*r, cur);
            }
        },
        _ => {},
    }
}

/// Every command preserves the editor's structural invariant: after any
/// command on a well-formed state, the context again holds exactly one
/// `Slot` and the focus none.
pub proof fn lemma_exec_cmd_wf(s: EditorState, c: Cmd)
    requires
        s.wf(),
    ensures
        spec_exec_cmd(s, c).0.wf(),
{
    let (s2, _) = spec_cmd_raw(s, c);
    assert(spec_exec_cmd(s, c).0.expr == s2.expr);
    assert(spec_exec_cmd(s, c).0.cursor == s2.cursor);
    match c {
        Cmd::Backspace => {},
        Cmd::Lambda => {
            if s.cursor == Expr::Hole {
                lemma_slots_build(Expr::Slot, Expr::Slot);
                lemma_replace_slot_slots(s.expr, spec_lam(Expr::Slot));
            } else {
                lemma_slots_build(s.cursor, s.cursor);
            }
        },
        Cmd::Beta => {
            lemma_beta_slots(s.cursor);
        },
        Cmd::Redux => {
            lemma_detach_slots(s.cursor);
            if s.cursor.spec_redux_opt() is Some {
                lemma_replace_slot_slots(s.expr, spec_detach_redux(s.cursor));
            }
        },
        Cmd::Down => {
            match s.cursor {
                Expr::Lam(b) => {
                    lemma_slots_build(Expr::Slot, Expr::Slot);
                    lemma_replace_slot_slots(s.expr, spec_lam(Expr::Slot));
                    assert(s.cursor.num_slots() == b.num_slots());
                },
                Expr::App(l, r) => {
                    lemma_slots_build(Expr::Slot, *r);
                    lemma_replace_slot_slots(s.expr, spec_app(Expr::Slot, *r));
                    assert(s.cursor.num_slots() == l.num_slots() + r.num_slots());
                },
                _ => {},
            }
        },
        Cmd::Up => {
            if s.leaf_mode != LeafMode::Leaf {
                lemma_up_rec_slots(s.expr, s.cursor);
            }
        },
        Cmd::Top => {
            lemma_replace_slot_slots(s.expr, s.cursor);
        },
        Cmd::LeftMost => {
            lemma_extract_ends_slots(s.cursor);
            lemma_replace_slot_slots(s.expr, spec_extract_leftmost(s.cursor).0);
        },
        Cmd::RightMost => {
            lemma_extract_ends_slots(s.cursor);
            lemma_replace_slot_slots(s.expr, spec_extract_rightmost(s.cursor).0);
        },
        Cmd::LeftSib => {
            if s.leaf_mode == LeafMode::Leaf {
                lemma_leafswap_slots(s.expr, s.cursor);
            } else {
                lemma_lt_rec_slots(s.expr, s.cursor);
            }
        },
        Cmd::RightSib => {
            if s.leaf_mode == LeafMode::Leaf {
                lemma_leafswap_slots(s.expr, s.cursor);
            } else {
                lemma_rt_rec_slots(s.expr, s.cursor);
            }
        },
        Cmd::ApplyLeft => {
            lemma_slots_build(s.cursor, Expr::Slot);
            lemma_replace_slot_slots(s.expr, spec_app(s.cursor, Expr::Slot));
        },
        Cmd::ApplyRight => {
            lemma_slots_build(Expr::Slot, s.cursor);
            lemma_replace_slot_slots(s.expr, spec_app(Expr::Slot, s.cursor));
        },
        Cmd::Plus => {
            lemma_combinator_slots();
            lemma_slots_build(spec_plus(), s.cursor);
        },
        Cmd::Times => {
            lemma_combinator_slots();
            lemma_slots_build(spec_times(), s.cursor);
        },
        Cmd::Power => {
            lemma_combinator_slots();
            lemma_slots_build(spec_power(), s.cursor);
        },
        Cmd::Dot => {
            if s.cursor != Expr::Hole {
                lemma_slots_build(s.cursor, Expr::Slot);
                lemma_replace_slot_slots(s.expr, spec_app(s.cursor, Expr::Slot));
            }
        },
        Cmd::Num(n) => {
            lemma_church_slots(n as nat);
            lemma_slots_build(s.cursor, spec_church(n as nat));
        },
        Cmd::VarLit(n) => {
            lemma_slots_build(s.cursor, Expr::Var(n));
        },
        Cmd::Unknown(_) => {},
    }
}

/// The combinator constants hold no slot.
proof fn lemma_combinator_slots()
    ensures
        spec_plus().num_slots() == 0,
        spec_times().num_slots() == 0,
        spec_power().num_slots() == 0,
{
    assert(Expr::Var(0).num_slots() == 0);
    assert(Expr::Var(1).num_slots() == 0);
    assert(Expr::Var(2).num_slots() == 0);
    assert(Expr::Var(3).num_slots() == 0);
    let v0 = Expr::Var(0);
    let v1 = Expr::Var(1);
    let v2 = Expr::Var(2);
    let v3 = Expr::Var(3);
    // spec_plus: λλλλ((3 1) ((2 1) 0))
    let p_right = spec_app(spec_app(v2, v1), v0);
    let p_body = spec_app(spec_app(v3, v1), p_right);
    lemma_slots_build(v2, v1);
    lemma_slots_build(spec_app(v2, v1), v0);
    lemma_slots_build(v3, v1);
    lemma_slots_build(spec_app(v3, v1), p_right);
    lemma_lam4_slots(p_body);
    // spec_times: λλλλ((3 (2 1)) 0)
    let t_left = spec_app(v3, spec_app(v2, v1));
    let t_body = spec_app(t_left, v0);
    lemma_slots_build(v3, spec_app(v2, v1));
    lemma_slots_build(t_left, v0);
    lemma_lam4_slots(t_body);
    // spec_power: λλλλ(((2 3) 1) 0)
    let w_left = spec_app(spec_app(v2, v3), v1);
    let w_body = spec_app(w_left, v0);
    lemma_slots_build(v2, v3);
    lemma_slots_build(spec_app(v2, v3), v1);
    lemma_slots_build(w_left, v0);
    lemma_lam4_slots(w_body);
}

/// Four lambda wrappers keep the body's slot count.
proof fn lemma_lam4_slots(body: Expr)
    ensures
        spec_lam(spec_lam(spec_lam(spec_lam(body)))).num_slots() == body.num_slots(),
{
    lemma_slots_build(body, body);
    lemma_slots_build(spec_lam(body), body);
    lemma_slots_build(spec_lam(spec_lam(body)), body);
    lemma_slots_build(spec_lam(spec_lam(spec_lam(body))), body);
}

/// `top` reassembles: afterwards the context is the bare `Slot` and the
/// focus is the whole term, the old focus written into the old context's
/// slot.
pub proof fn lemma_top_reassembles(s: EditorState)
    ensures
        spec_exec_cmd(s, Cmd::Top).0.expr == Expr::Slot,
        spec_exec_cmd(s, Cmd::Top).0.cursor == s.spec_plugged(),
{
}

/// Writing a non-slot term into the slot never leaves a bare slot at the
/// root.
proof fn lemma_replace_slot_not_slot(e: Expr, to: Expr)
    requires
        to != Expr::Slot,
    ensures
        e.spec_replace_slot(to).0 != Expr::Slot,
{
    match e {
        Expr::Lam(_) => {},
        Expr::App(_, _) => {},
        _ => {},
    }
}

/// Climbing undoes a descent into a lambda: after the context gained
/// `Lam(Slot)` at its slot, `up` with the lambda's body as focus restores
/// the context and re-wraps the body.
proof fn lemma_up_undoes_dn_lam(ctx: Expr, b: Expr)
    requires
        ctx.num_slots() == 1,
        b.num_slots() == 0,
    ensures
        spec_up_rec(ctx.spec_replace_slot(spec_lam(Expr::Slot)).0, b) == (
            ctx,
            spec_lam(b),
            true,
        ),
    decreases ctx,
{
    lemma_slots_build(Expr::Slot, Expr::Slot);
    match ctx {
        Expr::Slot => {},
        Expr::Lam(c) => {
            lemma_up_undoes_dn_lam(*c, b);
            lemma_replace_slot_not_slot(*c, spec_lam(Expr::Slot));
        },
        Expr::App(l, r) => {
            lemma_replace_slot_slots(*l, spec_lam(Expr::Slot));
            lemma_replace_slot_not_slot(*l, spec_lam(Expr::Slot));
            lemma_replace_slot_not_slot(*r, spec_lam(Expr::Slot));
            if l.num_slots() == 1 {
                lemma_up_undoes_dn_lam(*l, b);
            } else {
                lemma_replace_slot_slots(*l, spec_lam(Expr::Slot));
                assert(l.spec_replace_slot(spec_lam(Expr::Slot)).0 == *l);
                lemma_climb_no_slot(*l, b);
                lemma_up_undoes_dn_lam(*r, b);
            }
        },
        _ => {},
    }
}

/// Climbing undoes a descent into an application: after the context
/// gained `App(Slot, r)` at its slot, `up` with the old left side as
/// focus restores the context and re-builds the application — provided
/// the left side is not a hole, on which `up` collapses the parent
/// instead.
proof fn lemma_up_undoes_dn_app(ctx: Expr, l: Expr, r: Expr)
    requires
        ctx.num_slots() == 1,
        l.num_slots() == 0,
        r.num_slots() == 0,
        l != Expr::Hole,
    ensures
        spec_up_rec(ctx.spec_replace_slot(spec_app(Expr::Slot, r)).0, l) == (
            ctx,
            spec_app(l, r),
            true,
        ),
    decreases ctx,
{
    lemma_slots_build(Expr::Slot, r);
    match ctx {
        Expr::Slot => {},
        Expr::Lam(c) => {
            lemma_up_undoes_dn_app(*c, l, r);
            lemma_replace_slot_not_slot(*c, spec_app(Expr::Slot, r));
        },
        Expr::App(cl, cr) => {
            lemma_replace_slot_slots(*cl, spec_app(Expr::Slot, r));
            lemma_replace_slot_not_slot(*cl, spec_app(Expr::Slot, r));
            lemma_replace_slot_not_slot(*cr, spec_app(Expr::Slot, r));
            if cl.num_slots() == 1 {
                lemma_up_undoes_dn_app(*cl, l, r);
            } else {
                assert(cl.spec_replace_slot(spec_app(Expr::Slot, r)).0 == *cl);
                lemma_climb_no_slot(*cl, l);
                lemma_up_undoes_dn_app(*cr, l, r);
            }
        },
        _ => {},
    }
}

/// `dn` followed by `up` restores the editor state, whenever the focus
/// can be descended into and, for an application focus, its left side is
/// not a hole (there `up` collapses the parent instead).
pub proof fn lemma_dn_up_restores(s: EditorState)
    requires
        s.wf(),
        s.leaf_mode == LeafMode::No,
        match s.cursor {
            Expr::Lam(_) => true,
            Expr::App(l, _) => *l != Expr::Hole,
            _ => false,
        },
    ensures
        spec_exec_cmd(spec_exec_cmd(s, Cmd::Down).0, Cmd::Up).0 == s,
{
    match s.cursor {
        Expr::Lam(b) => {
            lemma_up_undoes_dn_lam(s.expr, *b);
        },
        Expr::App(l, r) => {
            lemma_up_undoes_dn_app(s.expr, *l, *r);
        },
        _ => {},
    }
}

/// `top` followed by `dn` restores the editor state, whenever the
/// context descends on the side that `dn` re-enters: the whole context
/// is `Lam(Slot)`, or an application with the slot on the left.
pub proof fn lemma_top_dn_identity(s: EditorState)
    requires
        s.wf(),
        s.leaf_mode == LeafMode::No,
        match s.expr {
            Expr::Lam(b) => *b == Expr::Slot,
            Expr::App(l, _) => *l == Expr::Slot,
            _ => false,
        },
    ensures
        spec_exec_cmd(spec_exec_cmd(s, Cmd::Top).0, Cmd::Down).0 == s,
{
    match s.expr {
        Expr::Lam(b) => {
            assert(b.spec_replace_slot(s.cursor) == (s.cursor, true));
            assert(s.expr.spec_replace_slot(s.cursor).0 == spec_lam(s.cursor));
        },
        Expr::App(l, r) => {
            assert(l.spec_replace_slot(s.cursor) == (s.cursor, true));
            assert(s.expr.spec_replace_slot(s.cursor).0 == spec_app(s.cursor, *r));
        },
        _ => {},
    }
}

/// A term whose rightmost leaf is the slot holds at least one slot.
proof fn lemma_rightmost_slot_count(e: Expr)
    requires
        e.spec_rightmost() == Expr::Slot,
    ensures
        e.num_slots() >= 1,
    decreases e,
{
    match e {
        Expr::Lam(b) => lemma_rightmost_slot_count(*b),
        Expr::App(_, r) => lemma_rightmost_slot_count(*r),
        _ => {},
    }
}

/// A term whose leftmost leaf is the slot holds at least one slot.
proof fn lemma_leftmost_slot_count(e: Expr)
    requires
        e.spec_leftmost() == Expr::Slot,
    ensures
        e.num_slots() >= 1,
    decreases e,
{
    match e {
        Expr::Lam(b) => lemma_leftmost_slot_count(*b),
        Expr::App(l, _) => lemma_leftmost_slot_count(*l),
        _ => {},
    }
}

} // verus!
