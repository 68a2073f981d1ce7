//! Packed term nodes for the paged heap, and the term algorithms working
//! over 16-bit handles: structural duplication, redex search, shifting,
//! substitution and beta-reduction, each verified against the boxed term
//! model of [`crate::expr::Expr`].

use vstd::prelude::*;

use crate::expr::Expr;
use crate::heap::Heap;
use crate::heap::Idx;
use crate::heap::Object;
use crate::heap::U;

verus! {

broadcast use vstd::set::group_set_axioms;

/// One heap node: two 16-bit words `(a, b)` packing one of four variants.
///
/// | variant  | encoding         |
/// |----------|------------------|
/// | `Hole`   | `(0, 0)`         |
/// | `Var(u)` | `(0, u + 1)`     |
/// | `Lam(e)` | `(e, 0)`, `e` nonzero |
/// | `App(l, r)` | `(l, r)`, both nonzero |
///
/// The zero handle is reserved, so the `+ 1` bias makes `Var(0)` and
/// `Hole` distinct; structural equality of nodes is one 32-bit compare.
#[derive(Clone, Copy, PartialEq, Eq, Structural, Debug)]
pub struct Term(pub U, pub U);

impl Default for Term {
    /// The default node is the canonical `Hole` encoding.
    fn default() -> (r: Self)
        ensures
            r == Term(0, 0),
    {
        Term(0, 0)
    }
}

/// A decoded heap node: the logical variant behind a packed [`Term`].
#[derive(Clone, Copy, Debug)]
pub enum TermRepr {
    Hole,
    Var(U),
    Lam(Idx<Term>),
    App(Idx<Term>, Idx<Term>),
}

impl Term {
    /// The packed node is the hole.
    pub open spec fn is_hole(self) -> bool {
        self.0 == 0 && self.1 == 0
    }

    /// The packed node is a variable.
    pub open spec fn is_var(self) -> bool {
        self.0 == 0 && self.1 != 0
    }

    /// The de Bruijn index of a variable node (the stored word less the
    /// bias).
    pub open spec fn var_val(self) -> int {
        self.1 - 1
    }

    /// The packed node is an abstraction.
    pub open spec fn is_lam(self) -> bool {
        self.0 != 0 && self.1 == 0
    }

    /// The body handle of an abstraction node.
    pub open spec fn lam_body(self) -> int {
        self.0 as int
    }

    /// The packed node is an application.
    pub open spec fn is_app(self) -> bool {
        self.0 != 0 && self.1 != 0
    }

    /// The left handle of an application node.
    pub open spec fn app_left(self) -> int {
        self.0 as int
    }

    /// The right handle of an application node.
    pub open spec fn app_right(self) -> int {
        self.1 as int
    }

    /// Decode the packed node into its logical variant; this is the only
    /// place that knows about the `+ 1` bias.
    pub fn decode(self) -> (r: TermRepr)
        ensures
            self.is_hole() ==> r matches TermRepr::Hole,
            self.is_var() ==> (r matches TermRepr::Var(u) && u == self.var_val()),
            self.is_lam() ==> (r matches TermRepr::Lam(e) && e.raw == self.lam_body()),
            self.is_app() ==> (r matches TermRepr::App(l, rr) && l.raw == self.app_left()
                && rr.raw == self.app_right()),
    {
        if self.0 == 0 {
            if self.1 == 0 {
                TermRepr::Hole
            } else {
                TermRepr::Var(self.1 - 1)
            }
        } else {
            if self.1 == 0 {
                TermRepr::Lam(Idx::from_raw(self.0))
            } else {
                TermRepr::App(Idx::from_raw(self.0), Idx::from_raw(self.1))
            }
        }
    }

    /// Encode a logical variant back into a packed node. Variables must
    /// leave room for the bias, and handles must be nonzero, or the
    /// encoding could not be read back.
    pub fn encode(r: TermRepr) -> (t: Term)
        requires
            r matches TermRepr::Var(u) ==> u < U::MAX,
            r matches TermRepr::Lam(e) ==> e.raw != 0,
            r matches TermRepr::App(l, rr) ==> l.raw != 0 && rr.raw != 0,
        ensures
            r matches TermRepr::Hole ==> t.is_hole(),
            r matches TermRepr::Var(u) ==> t.is_var() && t.var_val() == u,
            r matches TermRepr::Lam(e) ==> t.is_lam() && t.lam_body() == e.raw,
            r matches TermRepr::App(l, rr) ==> t.is_app() && t.app_left() == l.raw
                && t.app_right() == rr.raw,
    {
        match r {
            TermRepr::Hole => Term(0, 0),
            TermRepr::Var(u) => Term(0, u + 1),
            TermRepr::Lam(e) => Term(e.raw, 0),
            TermRepr::App(l, rr) => Term(l.raw, rr.raw),
        }
    }
}

impl Object for Term {
    /// The handles this node holds: the body of a lambda, both sides of
    /// an application, nothing for the leaves.
    fn get_refs(&self) -> Vec<Idx<Term>> {
        let mut refs = Vec::new();
        match self.decode() {
            TermRepr::Hole => {},
            TermRepr::Var(_) => {},
            TermRepr::Lam(e) => {
                refs.push(e);
            },
            TermRepr::App(l, r) => {
                refs.push(l);
                refs.push(r);
            },
        }
        refs
    }
}

/// Every variable that an upward shift renumbers stays within the range
/// the packed 16-bit encoding can hold (indices up to 65534, leaving
/// room for the bias).
pub open spec fn shift_fits16(e: Expr, v: int, amount: int) -> bool
    decreases e,
{
    match e {
        Expr::Var(u) => u >= v ==> u + amount <= 65534,
        Expr::Lam(b) => shift_fits16(*b, v + 1, amount),
        Expr::App(l, r) => shift_fits16(*l, v, amount) && shift_fits16(*r, v, amount),
        _ => true,
    }
}

/// A bound on all variable indices implies that an upward shift fits the
/// packed encoding.
pub proof fn lemma_max_var_shift_fits16(e: Expr, v: int, amount: int)
    requires
        e.max_var() + amount <= 65534,
    ensures
        shift_fits16(e, v, amount),
    decreases e,
{
    match e {
        Expr::Lam(b) => lemma_max_var_shift_fits16(*b, v + 1, amount),
        Expr::App(l, r) => {
            lemma_max_var_shift_fits16(*l, v, amount);
            lemma_max_var_shift_fits16(*r, v, amount);
        },
        _ => {},
    }
}

/// Plain substitution without renumbering: every free `Var(v)` (adjusted
/// under binders) becomes `w`, bound variables and everything else stay.
/// This is capture-avoiding only when `w` is closed.
pub open spec fn spec_replace_var(e: Expr, v: int, w: Expr) -> Expr
    decreases e,
{
    match e {
        Expr::Var(u) => if u == v {
            w
        } else {
            e
        },
        Expr::Lam(b) => Expr::Lam(Box::new(spec_replace_var(*b, v + 1, w))),
        Expr::App(l, r) => Expr::App(
            Box::new(spec_replace_var(*l, v, w)),
            Box::new(spec_replace_var(*r, v, w)),
        ),
        _ => e,
    }
}

/// Shift-based substitution: every free `Var(v)` (adjusted under binders)
/// becomes a copy of `w` with its free variables raised by `s`, which
/// itself grows by one per crossed lambda while `w` is open. Other
/// variables keep their indices.
pub open spec fn spec_replace_shifted(e: Expr, v: int, w: Expr, s: int) -> Expr
    decreases e,
{
    match e {
        Expr::Var(u) => if u == v {
            w.spec_shift(0, s)
        } else {
            e
        },
        Expr::Lam(b) => Expr::Lam(
            Box::new(
                spec_replace_shifted(
                    *b,
                    v + 1,
                    w,
                    if w.spec_closed(0) {
                        s
                    } else {
                        s + 1
                    },
                ),
            ),
        ),
        Expr::App(l, r) => Expr::App(
            Box::new(spec_replace_shifted(*l, v, w, s)),
            Box::new(spec_replace_shifted(*r, v, w, s)),
        ),
        _ => e,
    }
}

impl<const PAGESIZE: usize, const G1PAGES: usize> Heap<Term, PAGESIZE, G1PAGES> {
    /// A well-formed term at handle `i`: the handle is live and every
    /// child handle is a smaller, well-formed term. (Handles are given
    /// out in increasing order and nodes are written before their
    /// parents, so all terms built through `init` have this shape.)
    pub open spec fn twf(self, i: int) -> bool
        decreases i,
    {
        self.live(i) && {
            let n = self.node(i);
            if n.is_lam() {
                0 < n.lam_body() < i && self.twf(n.lam_body())
            } else if n.is_app() {
                &&& 0 < n.app_left() < i
                &&& 0 < n.app_right() < i
                &&& self.twf(n.app_left())
                &&& self.twf(n.app_right())
            } else {
                true
            }
        }
    }

    /// The boxed term that the heap encodes at handle `i` (meaningful
    /// when `twf(i)` holds).
    pub open spec fn term_at(self, i: int) -> Expr
        decreases i,
    {
        let n = self.node(i);
        if n.is_var() {
            Expr::Var(n.var_val() as u32)
        } else if n.is_lam() {
            if 0 < n.lam_body() < i {
                Expr::Lam(Box::new(self.term_at(n.lam_body())))
            } else {
                Expr::Hole
            }
        } else if n.is_app() {
            if 0 < n.app_left() < i && 0 < n.app_right() < i {
                Expr::App(
                    Box::new(self.term_at(n.app_left())),
                    Box::new(self.term_at(n.app_right())),
                )
            } else {
                Expr::Hole
            }
        } else {
            Expr::Hole
        }
    }

    /// The set of handles reachable from `i` (including `i`).
    pub open spec fn reach(self, i: int) -> Set<int>
        decreases i,
    {
        let n = self.node(i);
        Set::empty().insert(i).union(
            if n.is_lam() && 0 < n.lam_body() < i {
                self.reach(n.lam_body())
            } else if n.is_app() && 0 < n.app_left() < i && 0 < n.app_right() < i {
                self.reach(n.app_left()).union(self.reach(n.app_right()))
            } else {
                Set::empty()
            },
        )
    }

    /// Every handle reachable from `i` is at least `lo`: the term lies
    /// wholly in the region allocated from `lo` on.
    pub open spec fn above(self, i: int, lo: int) -> bool
        decreases i,
    {
        i >= lo && {
            let n = self.node(i);
            if n.is_lam() && 0 < n.lam_body() < i {
                self.above(n.lam_body(), lo)
            } else if n.is_app() && 0 < n.app_left() < i && 0 < n.app_right() < i {
                self.above(n.app_left(), lo) && self.above(n.app_right(), lo)
            } else {
                true
            }
        }
    }

    /// The term at `i` is a tree: no handle is shared between the two
    /// sides of any application in it.
    pub open spec fn tree_at(self, i: int) -> bool
        decreases i,
    {
        self.twf(i) && {
            let n = self.node(i);
            if n.is_lam() && 0 < n.lam_body() < i {
                self.tree_at(n.lam_body())
            } else if n.is_app() && 0 < n.app_left() < i && 0 < n.app_right() < i {
                &&& self.tree_at(n.app_left())
                &&& self.tree_at(n.app_right())
                &&& self.reach(n.app_left()).disjoint(self.reach(n.app_right()))
            } else {
                true
            }
        }
    }

    /// One heap extends another when every live handle of the old heap is
    /// live in the new one with the same node.
    pub open spec fn extends(self, older: Self) -> bool {
        &&& forall|j: int| #[trigger] older.live(j) ==> self.live(j)
        &&& forall|j: int| #[trigger] older.live(j) ==> self.node(j) == older.node(j)
        &&& self.g2_next() >= older.g2_next()
    }

    /// Extension keeps every well-formed term intact: its shape, its
    /// decoding, its reach, its freshness bound and its tree-ness.
    pub proof fn lemma_extends_term(h1: Self, h2: Self, i: int, lo: int)
        requires
            h1.twf(i),
            h2.extends(h1),
        ensures
            h2.twf(i),
            h2.term_at(i) == h1.term_at(i),
            h2.reach(i) == h1.reach(i),
            h2.above(i, lo) == h1.above(i, lo),
            h2.tree_at(i) == h1.tree_at(i),
        decreases i,
    {
        let n = h1.node(i);
        if n.is_lam() {
            Self::lemma_extends_term(h1, h2, n.lam_body(), lo);
        } else if n.is_app() {
            Self::lemma_extends_term(h1, h2, n.app_left(), lo);
            Self::lemma_extends_term(h1, h2, n.app_right(), lo);
        }
        assert(h2.reach(i) =~= h1.reach(i));
    }

    /// Every reachable handle of a well-formed term is live, and no
    /// larger than the root.
    pub proof fn lemma_reach_live(self, i: int)
        requires
            self.twf(i),
        ensures
            forall|k: int| #[trigger] self.reach(i).contains(k) ==> self.live(k) && 0 < k
                <= i,
            self.reach(i).contains(i),
        decreases i,
    {
        let n = self.node(i);
        if n.is_lam() {
            self.lemma_reach_live(n.lam_body());
        } else if n.is_app() {
            self.lemma_reach_live(n.app_left());
            self.lemma_reach_live(n.app_right());
        }
        assert forall|k: int| #[trigger] self.reach(i).contains(k) implies self.live(k)
            && 0 < k <= i by {
            self.lemma_live_positive(i);
            if k != i {
                if n.is_lam() && 0 < n.lam_body() < i {
                    assert(self.reach(n.lam_body()).contains(k));
                } else if n.is_app() && 0 < n.app_left() < i && 0 < n.app_right() < i {
                    assert(self.reach(n.app_left()).contains(k) || self.reach(
                        n.app_right(),
                    ).contains(k));
                }
            }
        }
    }

    /// In a term wholly above `lo`, every reachable handle is at least
    /// `lo`.
    pub proof fn lemma_above_reach(self, i: int, lo: int)
        requires
            self.twf(i),
            self.above(i, lo),
        ensures
            forall|k: int| #[trigger] self.reach(i).contains(k) ==> k >= lo,
        decreases i,
    {
        let n = self.node(i);
        if n.is_lam() {
            self.lemma_above_reach(n.lam_body(), lo);
        } else if n.is_app() {
            self.lemma_above_reach(n.app_left(), lo);
            self.lemma_above_reach(n.app_right(), lo);
        }
        assert forall|k: int| #[trigger] self.reach(i).contains(k) implies k >= lo by {
            if k != i {
                if n.is_lam() && 0 < n.lam_body() < i {
                    assert(self.reach(n.lam_body()).contains(k));
                } else if n.is_app() && 0 < n.app_left() < i && 0 < n.app_right() < i {
                    assert(self.reach(n.app_left()).contains(k) || self.reach(
                        n.app_right(),
                    ).contains(k));
                }
            }
        }
    }

    /// Freshness bounds weaken: a term wholly above `lo1` is wholly
    /// above any smaller bound.
    pub proof fn lemma_above_mono(self, i: int, lo1: int, lo2: int)
        requires
            self.above(i, lo1),
            lo2 <= lo1,
        ensures
            self.above(i, lo2),
        decreases i,
    {
        let n = self.node(i);
        if n.is_lam() && 0 < n.lam_body() < i {
            self.lemma_above_mono(n.lam_body(), lo1, lo2);
        } else if n.is_app() && 0 < n.app_left() < i && 0 < n.app_right() < i {
            self.lemma_above_mono(n.app_left(), lo1, lo2);
            self.lemma_above_mono(n.app_right(), lo1, lo2);
        }
    }

    /// Extension is transitive.
    pub proof fn lemma_extends_trans(h3: Self, h2: Self, h1: Self)
        requires
            h3.extends(h2),
            h2.extends(h1),
        ensures
            h3.extends(h1),
    {
    }

    /// Deep-copy the term at `at` into fresh nodes of the same heap.
    /// The copy is structurally equal to the original, shares no handle
    /// with any node that was live before (all its handles are fresh),
    /// and is a tree. Nothing is returned when allocation fails partway;
    /// either way every node that was live before is untouched.
    pub fn duplicate(&mut self, at: Idx<Term>) -> (r: Option<Idx<Term>>)
        requires
            old(self).wf(),
            old(self).twf(at.raw as int),
        ensures
            final(self).wf(),
            final(self).extends(*old(self)),
            final(self).g2_base() == old(self).g2_base(),
            r is None ==> final(self).g2_next() == final(self).g2_base() + PAGESIZE,
            r matches Some(j) ==> {
                &&& final(self).twf(j.raw as int)
                &&& final(self).term_at(j.raw as int) == old(self).term_at(at.raw as int)
                &&& final(self).tree_at(j.raw as int)
                &&& final(self).above(j.raw as int, old(self).g2_next())
            },
        decreases at.raw,
    {
        proof {
            self.lemma_live_readable(at.raw as int);
        }
        let n = *self.get(at);
        match n.decode() {
            TermRepr::Lam(e) => {
                let ghost h0 = *self;
                let ne = match self.duplicate(e) {
                    None => {
                        return None;
                    },
                    Some(x) => x,
                };
                let ghost h1 = *self;
                proof {
                    h1.lemma_live_bounds(ne.raw as int);
                }
                match self.init(Term::encode(TermRepr::Lam(ne))) {
                    None => {
                        proof {
                            Self::lemma_extends_trans(*self, h1, h0);
                        }
                        None
                    },
                    Some(j) => {
                        proof {
                            assert(final(self).extends(h1));
                            Self::lemma_extends_trans(*self, h1, h0);
                            Self::lemma_extends_term(h1, *self, ne.raw as int, h0.g2_next());
                            self.lemma_live_bounds(j.raw as int);
                            h1.lemma_live_bounds(ne.raw as int);
                            assert(self.term_at(j.raw as int) == Expr::Lam(
                                Box::new(self.term_at(ne.raw as int)),
                            ));
                            assert(h0.term_at(at.raw as int) == Expr::Lam(
                                Box::new(h0.term_at(n.lam_body())),
                            ));
                        }
                        Some(j)
                    },
                }
            },
            TermRepr::App(l, rr) => {
                let ghost h0 = *self;
                let nl = match self.duplicate(l) {
                    None => {
                        return None;
                    },
                    Some(x) => x,
                };
                let ghost h1 = *self;
                proof {
                    Self::lemma_extends_term(h0, h1, rr.raw as int, 0);
                }
                let nr = match self.duplicate(rr) {
                    None => {
                        proof {
                            Self::lemma_extends_trans(*self, h1, h0);
                        }
                        return None;
                    },
                    Some(x) => x,
                };
                let ghost h2 = *self;
                proof {
                    h2.lemma_live_bounds(nl.raw as int);
                    h2.lemma_live_bounds(nr.raw as int);
                    Self::lemma_extends_term(h1, h2, nl.raw as int, h0.g2_next());
                }
                match self.init(Term::encode(TermRepr::App(nl, nr))) {
                    None => {
                        proof {
                            Self::lemma_extends_trans(h2, h1, h0);
                            Self::lemma_extends_trans(*self, h2, h0);
                        }
                        None
                    },
                    Some(j) => {
                        proof {
                            assert(final(self).extends(h2));
                            Self::lemma_extends_trans(h2, h1, h0);
                            Self::lemma_extends_trans(*self, h2, h0);
                            Self::lemma_extends_term(h2, *self, nl.raw as int, h0.g2_next());
                            Self::lemma_extends_term(h2, *self, nr.raw as int, h1.g2_next());
                            self.lemma_above_mono(nr.raw as int, h1.g2_next(), h0.g2_next());
                            self.lemma_live_bounds(j.raw as int);
                            assert(self.term_at(j.raw as int) == Expr::App(
                                Box::new(self.term_at(nl.raw as int)),
                                Box::new(self.term_at(nr.raw as int)),
                            ));
                            assert(h0.term_at(at.raw as int) == Expr::App(
                                Box::new(h0.term_at(n.app_left())),
                                Box::new(h0.term_at(n.app_right())),
                            ));
                            self.lemma_above_reach(nl.raw as int, h0.g2_next());
                            self.lemma_reach_live(nl.raw as int);
                            self.lemma_above_reach(nr.raw as int, h1.g2_next());
                            h1.lemma_live_bounds(nl.raw as int);
                            assert(self.reach(nl.raw as int).disjoint(
                                self.reach(nr.raw as int),
                            )) by {
                                assert forall|k: int|
                                    self.reach(nl.raw as int).contains(k) implies !self.reach(
                                    nr.raw as int,
                                ).contains(k) by {
                                    assert(k <= nl.raw as int);
                                    if self.reach(nr.raw as int).contains(k) {
                                        assert(k >= h1.g2_next());
                                    }
                                }
                            }
                        }
                        Some(j)
                    },
                }
            },
            _ => {
                let r = self.init(n);
                proof {
                    if r is Some {
                        let j = r->Some_0;
                        self.lemma_live_bounds(j.raw as int);
                    }
                }
                r
            },
        }
    }

    /// As `duplicate`, copying a term out of another heap (which may have
    /// different page parameters) into this one.
    pub fn duplicate_from<const OP: usize, const OG: usize>(
        &mut self,
        other: &Heap<Term, OP, OG>,
        at: Idx<Term>,
    ) -> (r: Option<Idx<Term>>)
        requires
            old(self).wf(),
            other.wf(),
            other.twf(at.raw as int),
        ensures
            final(self).wf(),
            final(self).extends(*old(self)),
            final(self).g2_base() == old(self).g2_base(),
            r is None ==> final(self).g2_next() == final(self).g2_base() + PAGESIZE,
            r matches Some(j) ==> {
                &&& final(self).twf(j.raw as int)
                &&& final(self).term_at(j.raw as int) == other.term_at(at.raw as int)
                &&& final(self).tree_at(j.raw as int)
                &&& final(self).above(j.raw as int, old(self).g2_next())
            },
        decreases at.raw,
    {
        proof {
            other.lemma_live_readable(at.raw as int);
        }
        let n = *other.get(at);
        match n.decode() {
            TermRepr::Lam(e) => {
                let ghost h0 = *self;
                let ne = match self.duplicate_from(other, e) {
                    None => {
                        return None;
                    },
                    Some(x) => x,
                };
                let ghost h1 = *self;
                proof {
                    h1.lemma_live_bounds(ne.raw as int);
                }
                match self.init(Term::encode(TermRepr::Lam(ne))) {
                    None => {
                        proof {
                            Self::lemma_extends_trans(*self, h1, h0);
                        }
                        None
                    },
                    Some(j) => {
                        proof {
                            assert(final(self).extends(h1));
                            Self::lemma_extends_trans(*self, h1, h0);
                            Self::lemma_extends_term(h1, *self, ne.raw as int, h0.g2_next());
                            self.lemma_live_bounds(j.raw as int);
                            h1.lemma_live_bounds(ne.raw as int);
                            assert(self.term_at(j.raw as int) == Expr::Lam(
                                Box::new(self.term_at(ne.raw as int)),
                            ));
                            assert(other.term_at(at.raw as int) == Expr::Lam(
                                Box::new(other.term_at(n.lam_body())),
                            ));
                        }
                        Some(j)
                    },
                }
            },
            TermRepr::App(l, rr) => {
                let ghost h0 = *self;
                let nl = match self.duplicate_from(other, l) {
                    None => {
                        return None;
                    },
                    Some(x) => x,
                };
                let ghost h1 = *self;
                let nr = match self.duplicate_from(other, rr) {
                    None => {
                        proof {
                            Self::lemma_extends_trans(*self, h1, h0);
                        }
                        return None;
                    },
                    Some(x) => x,
                };
                let ghost h2 = *self;
                proof {
                    h2.lemma_live_bounds(nl.raw as int);
                    h2.lemma_live_bounds(nr.raw as int);
                    Self::lemma_extends_term(h1, h2, nl.raw as int, h0.g2_next());
                }
                match self.init(Term::encode(TermRepr::App(nl, nr))) {
                    None => {
                        proof {
                            Self::lemma_extends_trans(h2, h1, h0);
                            Self::lemma_extends_trans(*self, h2, h0);
                        }
                        None
                    },
                    Some(j) => {
                        proof {
                            assert(final(self).extends(h2));
                            Self::lemma_extends_trans(h2, h1, h0);
                            Self::lemma_extends_trans(*self, h2, h0);
                            Self::lemma_extends_term(h2, *self, nl.raw as int, h0.g2_next());
                            Self::lemma_extends_term(h2, *self, nr.raw as int, h1.g2_next());
                            self.lemma_above_mono(nr.raw as int, h1.g2_next(), h0.g2_next());
                            self.lemma_live_bounds(j.raw as int);
                            assert(self.term_at(j.raw as int) == Expr::App(
                                Box::new(self.term_at(nl.raw as int)),
                                Box::new(self.term_at(nr.raw as int)),
                            ));
                            assert(other.term_at(at.raw as int) == Expr::App(
                                Box::new(other.term_at(n.app_left())),
                                Box::new(other.term_at(n.app_right())),
                            ));
                            self.lemma_above_reach(nl.raw as int, h0.g2_next());
                            self.lemma_reach_live(nl.raw as int);
                            self.lemma_above_reach(nr.raw as int, h1.g2_next());
                            h1.lemma_live_bounds(nl.raw as int);
                            assert(self.reach(nl.raw as int).disjoint(
                                self.reach(nr.raw as int),
                            )) by {
                                assert forall|k: int|
                                    self.reach(nl.raw as int).contains(k) implies !self.reach(
                                    nr.raw as int,
                                ).contains(k) by {
                                    assert(k <= nl.raw as int);
                                    if self.reach(nr.raw as int).contains(k) {
                                        assert(k >= h1.g2_next());
                                    }
                                }
                            }
                        }
                        Some(j)
                    },
                }
            },
            _ => {
                let r = self.init(n);
                proof {
                    if r is Some {
                        let j = r->Some_0;
                        self.lemma_live_bounds(j.raw as int);
                    }
                }
                r
            },
        }
    }

    /// A term depends only on its reachable nodes: a heap that keeps all
    /// of them live and unchanged keeps the term, its reach and its
    /// tree-ness.
    pub proof fn lemma_frame(h1: Self, h2: Self, i: int)
        requires
            h1.twf(i),
            forall|k: int|
                #[trigger] h1.reach(i).contains(k) ==> h2.live(k) && h2.node(k) == h1.node(
                    k,
                ),
        ensures
            h2.twf(i),
            h2.term_at(i) == h1.term_at(i),
            h2.reach(i) == h1.reach(i),
            h2.tree_at(i) == h1.tree_at(i),
        decreases i,
    {
        let n = h1.node(i);
        assert(h1.reach(i).contains(i));
        if n.is_lam() {
            assert forall|k: int| #[trigger] h1.reach(n.lam_body()).contains(k) implies h2.live(
                k,
            ) && h2.node(k) == h1.node(k) by {
                assert(h1.reach(i).contains(k));
            }
            Self::lemma_frame(h1, h2, n.lam_body());
        } else if n.is_app() {
            assert forall|k: int| #[trigger] h1.reach(n.app_left()).contains(k) implies h2.live(
                k,
            ) && h2.node(k) == h1.node(k) by {
                assert(h1.reach(i).contains(k));
            }
            assert forall|k: int| #[trigger] h1.reach(n.app_right()).contains(k) implies h2.live(
                k,
            ) && h2.node(k) == h1.node(k) by {
                assert(h1.reach(i).contains(k));
            }
            Self::lemma_frame(h1, h2, n.app_left());
            Self::lemma_frame(h1, h2, n.app_right());
        }
        assert(h2.reach(i) =~= h1.reach(i));
    }

    /// Raise every free variable of the term at `at` that sits at or
    /// above `level` by `amount`, rewriting variable nodes in place.
    /// Crossing a lambda raises the level by one. The term must be a
    /// tree (an in-place rewrite of a shared node would be applied to
    /// both sharers); nodes outside the term are untouched.
    pub fn shift(&mut self, at: Idx<Term>, level: U, amount: U)
        requires
            old(self).wf(),
            old(self).tree_at(at.raw as int),
            level + old(self).term_at(at.raw as int).height() <= U::MAX,
            shift_fits16(old(self).term_at(at.raw as int), level as int, amount as int),
        ensures
            final(self).wf(),
            final(self).g2_next() == old(self).g2_next(),
            final(self).g2_base() == old(self).g2_base(),
            forall|j: int| old(self).readable(j) == final(self).readable(j),
            forall|j: int| old(self).live(j) == final(self).live(j),
            forall|j: int|
                #[trigger] old(self).live(j) && !old(self).reach(at.raw as int).contains(j)
                    ==> final(self).node(j) == old(self).node(j),
            final(self).tree_at(at.raw as int),
            final(self).reach(at.raw as int) == old(self).reach(at.raw as int),
            final(self).term_at(at.raw as int) == old(self).term_at(
                at.raw as int,
            ).spec_shift(level as int, amount as int),
        decreases at.raw,
    {
        proof {
            self.lemma_live_readable(at.raw as int);
            self.lemma_reach_live(at.raw as int);
        }
        let n = *self.get(at);
        match n.decode() {
            TermRepr::Var(u) => {
                if u >= level {
                    proof {
                        assert(old(self).term_at(at.raw as int) == Expr::Var(
                            n.var_val() as u32,
                        ));
                    }
                    self.get_mut(at, Term(0, (u + amount) + 1));
                    proof {
                        assert(final(self).reach(at.raw as int) =~= old(self).reach(
                            at.raw as int,
                        ));
                    }
                }
            },
            TermRepr::Lam(e) => {
                let ghost h0 = *self;
                self.shift(e, level + 1, amount);
                proof {
                    assert(self.node(at.raw as int) == h0.node(at.raw as int)) by {
                        h0.lemma_reach_live(e.raw as int);
                    }
                    assert(final(self).reach(at.raw as int) =~= old(self).reach(
                        at.raw as int,
                    ));
                    assert(h0.term_at(at.raw as int) == Expr::Lam(
                        Box::new(h0.term_at(n.lam_body())),
                    ));
                    assert(self.term_at(at.raw as int) == Expr::Lam(
                        Box::new(self.term_at(n.lam_body())),
                    ));
                    assert forall|j: int|
                        #[trigger] old(self).live(j) && !old(self).reach(
                            at.raw as int,
                        ).contains(j) implies final(self).node(j) == old(self).node(j) by {
                        assert(!h0.reach(e.raw as int).contains(j));
                    }
                }
            },
            TermRepr::App(l, rr) => {
                let ghost h0 = *self;
                proof {
                    assert(h0.term_at(at.raw as int) == Expr::App(
                        Box::new(h0.term_at(n.app_left())),
                        Box::new(h0.term_at(n.app_right())),
                    ));
                }
                self.shift(l, level, amount);
                let ghost h1 = *self;
                proof {
                    assert forall|k: int| #[trigger] h0.reach(rr.raw as int).contains(k)
                        implies h1.live(k) && h1.node(k) == h0.node(k) by {
                        h0.lemma_reach_live(rr.raw as int);
                    }
                    Self::lemma_frame(h0, h1, rr.raw as int);
                }
                self.shift(rr, level, amount);
                proof {
                    assert forall|k: int| #[trigger] h1.reach(l.raw as int).contains(k)
                        implies self.live(k) && self.node(k) == h1.node(k) by {
                        h1.lemma_reach_live(l.raw as int);
                        h0.lemma_reach_live(rr.raw as int);
                    }
                    Self::lemma_frame(h1, *self, l.raw as int);
                    assert(self.node(at.raw as int) == h0.node(at.raw as int)) by {
                        h0.lemma_reach_live(l.raw as int);
                        h0.lemma_reach_live(rr.raw as int);
                    }
                    assert(self.term_at(at.raw as int) == Expr::App(
                        Box::new(self.term_at(n.app_left())),
                        Box::new(self.term_at(n.app_right())),
                    ));
                    assert(final(self).reach(at.raw as int) =~= old(self).reach(
                        at.raw as int,
                    ));
                    assert forall|j: int|
                        #[trigger] old(self).live(j) && !old(self).reach(
                            at.raw as int,
                        ).contains(j) implies final(self).node(j) == old(self).node(j) by {
                        assert(!h0.reach(l.raw as int).contains(j));
                        assert(!h0.reach(rr.raw as int).contains(j));
                        assert(!h1.reach(rr.raw as int).contains(j));
                    }
                }
            },
            _ => {},
        }
    }

    /// A heap term is no taller than its own handle: children strictly
    /// shrink.
    pub proof fn lemma_term_height(self, i: int)
        requires
            self.twf(i),
        ensures
            self.term_at(i).height() <= i,
        decreases i,
    {
        self.lemma_live_positive(i);
        let n = self.node(i);
        if n.is_lam() {
            self.lemma_term_height(n.lam_body());
            assert(self.term_at(i) == Expr::Lam(Box::new(self.term_at(n.lam_body()))));
            assert(self.term_at(i).height() == 1 + self.term_at(n.lam_body()).height());
        } else if n.is_app() {
            self.lemma_term_height(n.app_left());
            self.lemma_term_height(n.app_right());
            let tl = self.term_at(n.app_left());
            let tr = self.term_at(n.app_right());
            assert(self.term_at(i) == Expr::App(Box::new(tl), Box::new(tr)));
            assert(self.term_at(i).height() == 1 + if tl.height() >= tr.height() {
                tl.height()
            } else {
                tr.height()
            });
        }
    }

    /// Variables of a heap term fit the 16-bit encoding with its bias.
    pub proof fn lemma_term_max_var(self, i: int)
        requires
            self.twf(i),
        ensures
            self.term_at(i).max_var() <= 65534,
        decreases i,
    {
        let n = self.node(i);
        if n.is_lam() {
            self.lemma_term_max_var(n.lam_body());
        } else if n.is_app() {
            self.lemma_term_max_var(n.app_left());
            self.lemma_term_max_var(n.app_right());
        }
    }

    /// Substitute the term at `with` for the variable `var` of the term
    /// at `at`, without renumbering: every `Var(var)` (adjusted under
    /// binders) comes to share the handle `with`, and rebuilt spines are
    /// fresh nodes while untouched subterms keep their handles. The name
    /// records the intent that `with` is closed, so that the shared
    /// handle needs no shifting; the structural contract holds
    /// regardless. Nothing is returned when allocation fails partway.
    pub fn replace_closed(&mut self, at: Idx<Term>, var: U, with: Idx<Term>) -> (r: Option<
        Idx<Term>,
    >)
        requires
            old(self).wf(),
            old(self).twf(at.raw as int),
            old(self).twf(with.raw as int),
            var + old(self).term_at(at.raw as int).height() <= U::MAX,
        ensures
            final(self).wf(),
            final(self).extends(*old(self)),
            final(self).g2_base() == old(self).g2_base(),
            r is None ==> final(self).g2_next() == final(self).g2_base() + PAGESIZE,
            r matches Some(j) ==> {
                &&& final(self).twf(j.raw as int)
                &&& final(self).term_at(j.raw as int) == spec_replace_var(
                    old(self).term_at(at.raw as int),
                    var as int,
                    old(self).term_at(with.raw as int),
                )
            },
        decreases at.raw,
    {
        proof {
            self.lemma_live_readable(at.raw as int);
        }
        let n = *self.get(at);
        match n.decode() {
            TermRepr::Var(v) => {
                if v == var {
                    Some(with)
                } else {
                    Some(at)
                }
            },
            TermRepr::Lam(e) => {
                let ghost h0 = *self;
                proof {
                    assert(h0.term_at(at.raw as int) == Expr::Lam(
                        Box::new(h0.term_at(n.lam_body())),
                    ));
                }
                let ne = match self.replace_closed(e, var + 1, with) {
                    None => {
                        return None;
                    },
                    Some(x) => x,
                };
                let ghost h1 = *self;
                if ne.raw == e.raw {
                    proof {
                        Self::lemma_extends_term(h0, h1, at.raw as int, 0);
                        Self::lemma_extends_term(h0, h1, e.raw as int, 0);
                        assert(h1.term_at(at.raw as int) == Expr::Lam(
                            Box::new(h1.term_at(n.lam_body())),
                        ));
                    }
                    Some(at)
                } else {
                    proof {
                        h1.lemma_live_bounds(ne.raw as int);
                    }
                    match self.init(Term::encode(TermRepr::Lam(ne))) {
                        None => {
                            proof {
                                Self::lemma_extends_trans(*self, h1, h0);
                            }
                            None
                        },
                        Some(j) => {
                            proof {
                                assert(final(self).extends(h1));
                                Self::lemma_extends_trans(*self, h1, h0);
                                Self::lemma_extends_term(h1, *self, ne.raw as int, 0);
                                self.lemma_live_bounds(j.raw as int);
                                assert(self.term_at(j.raw as int) == Expr::Lam(
                                    Box::new(self.term_at(ne.raw as int)),
                                ));
                            }
                            Some(j)
                        },
                    }
                }
            },
            TermRepr::App(l, rr) => {
                let ghost h0 = *self;
                proof {
                    assert(h0.term_at(at.raw as int) == Expr::App(
                        Box::new(h0.term_at(n.app_left())),
                        Box::new(h0.term_at(n.app_right())),
                    ));
                }
                let nl = match self.replace_closed(l, var, with) {
                    None => {
                        return None;
                    },
                    Some(x) => x,
                };
                let ghost h1 = *self;
                proof {
                    Self::lemma_extends_term(h0, h1, rr.raw as int, 0);
                    Self::lemma_extends_term(h0, h1, with.raw as int, 0);
                }
                let nr = match self.replace_closed(rr, var, with) {
                    None => {
                        proof {
                            Self::lemma_extends_trans(*self, h1, h0);
                        }
                        return None;
                    },
                    Some(x) => x,
                };
                let ghost h2 = *self;
                proof {
                    Self::lemma_extends_trans(h2, h1, h0);
                    Self::lemma_extends_term(h1, h2, nl.raw as int, 0);
                }
                if nl.raw == l.raw && nr.raw == rr.raw {
                    proof {
                        Self::lemma_extends_term(h0, h2, at.raw as int, 0);
                        Self::lemma_extends_term(h0, h2, l.raw as int, 0);
                        Self::lemma_extends_term(h0, h2, rr.raw as int, 0);
                        assert(h2.term_at(at.raw as int) == Expr::App(
                            Box::new(h2.term_at(n.app_left())),
                            Box::new(h2.term_at(n.app_right())),
                        ));
                    }
                    Some(at)
                } else {
                    proof {
                        h2.lemma_live_bounds(nl.raw as int);
                        h2.lemma_live_bounds(nr.raw as int);
                    }
                    match self.init(Term::encode(TermRepr::App(nl, nr))) {
                        None => {
                            proof {
                                Self::lemma_extends_trans(*self, h2, h0);
                            }
                            None
                        },
                        Some(j) => {
                            proof {
                                assert(final(self).extends(h2));
                                Self::lemma_extends_trans(*self, h2, h0);
                                Self::lemma_extends_term(h2, *self, nl.raw as int, 0);
                                Self::lemma_extends_term(h2, *self, nr.raw as int, 0);
                                self.lemma_live_bounds(j.raw as int);
                                assert(self.term_at(j.raw as int) == Expr::App(
                                    Box::new(self.term_at(nl.raw as int)),
                                    Box::new(self.term_at(nr.raw as int)),
                                ));
                            }
                            Some(j)
                        },
                    }
                }
            },
            _ => Some(at),
        }
    }

    /// Whether the term at `i` is closed at level `v`: no variable at or
    /// above `v` (adjusted under binders) occurs.
    pub fn closed_at(&self, i: Idx<Term>, v: U) -> (r: bool)
        requires
            self.wf(),
            self.twf(i.raw as int),
            v + self.term_at(i.raw as int).height() <= U::MAX,
        ensures
            r == self.term_at(i.raw as int).spec_closed(v as int),
        decreases i.raw,
    {
        proof {
            self.lemma_live_readable(i.raw as int);
        }
        let n = *self.get(i);
        match n.decode() {
            TermRepr::Var(u) => u < v,
            TermRepr::Lam(e) => self.closed_at(e, v + 1),
            TermRepr::App(l, rr) => self.closed_at(l, v) && self.closed_at(rr, v),
            _ => true,
        }
    }

    /// Substitute the term at `with` for the variable `var` of the term
    /// at `at`, copying `with` afresh at each substituted occurrence with
    /// its free variables raised by `level` plus one per lambda crossed
    /// while `with` is open. Free variables of `at` itself keep their
    /// indices. Rebuilt spines are fresh; untouched subterms keep their
    /// handles; every node that was live before is untouched. Nothing is
    /// returned when allocation fails partway.
    pub fn replace(&mut self, at: Idx<Term>, var: U, with: Idx<Term>, level: U) -> (r:
        Option<Idx<Term>>)
        requires
            old(self).wf(),
            old(self).twf(at.raw as int),
            old(self).twf(with.raw as int),
            var + old(self).term_at(at.raw as int).height() <= U::MAX,
            level + old(self).term_at(at.raw as int).height() <= U::MAX,
            old(self).term_at(with.raw as int).max_var() + level + old(self).term_at(
                at.raw as int,
            ).height() <= 65534,
        ensures
            final(self).wf(),
            final(self).extends(*old(self)),
            final(self).g2_base() == old(self).g2_base(),
            r is None ==> final(self).g2_next() == final(self).g2_base() + PAGESIZE,
            r matches Some(j) ==> {
                &&& final(self).twf(j.raw as int)
                &&& final(self).term_at(j.raw as int) == spec_replace_shifted(
                    old(self).term_at(at.raw as int),
                    var as int,
                    old(self).term_at(with.raw as int),
                    level as int,
                )
            },
        decreases at.raw,
    {
        proof {
            self.lemma_live_readable(at.raw as int);
            self.lemma_term_height(with.raw as int);
            self.lemma_term_max_var(with.raw as int);
        }
        let n = *self.get(at);
        match n.decode() {
            TermRepr::Var(v) => {
                if v == var {
                    let ghost h0 = *self;
                    let c = match self.duplicate(with) {
                        None => {
                            return None;
                        },
                        Some(x) => x,
                    };
                    let ghost h1 = *self;
                    proof {
                        lemma_max_var_shift_fits16(h1.term_at(c.raw as int), 0, level as int);
                        h1.lemma_term_max_var(c.raw as int);
                    }
                    self.shift(c, 0, level);
                    proof {
                        assert forall|j: int| #[trigger] h1.live(j) implies self.live(j)
                            && (h0.live(j) ==> self.node(j) == h1.node(j)) by {
                            if h0.live(j) {
                                h0.lemma_live_bounds(j);
                                if h1.reach(c.raw as int).contains(j) {
                                    h1.lemma_above_reach(c.raw as int, h0.g2_next());
                                }
                            }
                        }
                        assert(self.extends(h0));
                    }
                    Some(c)
                } else {
                    Some(at)
                }
            },
            TermRepr::Lam(e) => {
                let ghost h0 = *self;
                proof {
                    assert(h0.term_at(at.raw as int) == Expr::Lam(
                        Box::new(h0.term_at(n.lam_body())),
                    ));
                }
                let closed0 = self.closed_at(with, 0);
                let next_level = if closed0 {
                    level
                } else {
                    level + 1
                };
                let ne = match self.replace(e, var + 1, with, next_level) {
                    None => {
                        return None;
                    },
                    Some(x) => x,
                };
                let ghost h1 = *self;
                proof {
                    h1.lemma_live_bounds(ne.raw as int);
                }
                match self.init(Term::encode(TermRepr::Lam(ne))) {
                    None => {
                        proof {
                            Self::lemma_extends_trans(*self, h1, h0);
                        }
                        None
                    },
                    Some(j) => {
                        proof {
                            assert(final(self).extends(h1));
                            Self::lemma_extends_trans(*self, h1, h0);
                            Self::lemma_extends_term(h1, *self, ne.raw as int, 0);
                            self.lemma_live_bounds(j.raw as int);
                            assert(self.term_at(j.raw as int) == Expr::Lam(
                                Box::new(self.term_at(ne.raw as int)),
                            ));
                        }
                        Some(j)
                    },
                }
            },
            TermRepr::App(l, rr) => {
                let ghost h0 = *self;
                proof {
                    assert(h0.term_at(at.raw as int) == Expr::App(
                        Box::new(h0.term_at(n.app_left())),
                        Box::new(h0.term_at(n.app_right())),
                    ));
                }
                let nl = match self.replace(l, var, with, level) {
                    None => {
                        return None;
                    },
                    Some(x) => x,
                };
                let ghost h1 = *self;
                proof {
                    Self::lemma_extends_term(h0, h1, rr.raw as int, 0);
                    Self::lemma_extends_term(h0, h1, with.raw as int, 0);
                }
                let nr = match self.replace(rr, var, with, level) {
                    None => {
                        proof {
                            Self::lemma_extends_trans(*self, h1, h0);
                        }
                        return None;
                    },
                    Some(x) => x,
                };
                let ghost h2 = *self;
                proof {
                    Self::lemma_extends_trans(h2, h1, h0);
                    Self::lemma_extends_term(h1, h2, nl.raw as int, 0);
                    h2.lemma_live_bounds(nl.raw as int);
                    h2.lemma_live_bounds(nr.raw as int);
                }
                match self.init(Term::encode(TermRepr::App(nl, nr))) {
                    None => {
                        proof {
                            Self::lemma_extends_trans(*self, h2, h0);
                        }
                        None
                    },
                    Some(j) => {
                        proof {
                            assert(final(self).extends(h2));
                            Self::lemma_extends_trans(*self, h2, h0);
                            Self::lemma_extends_term(h2, *self, nl.raw as int, 0);
                            Self::lemma_extends_term(h2, *self, nr.raw as int, 0);
                            self.lemma_live_bounds(j.raw as int);
                            assert(self.term_at(j.raw as int) == Expr::App(
                                Box::new(self.term_at(nl.raw as int)),
                                Box::new(self.term_at(nr.raw as int)),
                            ));
                        }
                        Some(j)
                    },
                }
            },
            _ => Some(at),
        }
    }

    /// Beta substitution over handles: substitute the term at `with` for
    /// the variable bound `v` levels up in the term at `e`, renumbering
    /// the free variables of `e` above `v` down by one.
    fn subst_idx(&mut self, e: Idx<Term>, v: U, with: Idx<Term>) -> (r: Option<Idx<Term>>)
        requires
            old(self).wf(),
            old(self).twf(e.raw as int),
            old(self).twf(with.raw as int),
            v + old(self).term_at(e.raw as int).height() <= U::MAX,
            old(self).term_at(with.raw as int).max_var() + v + old(self).term_at(
                e.raw as int,
            ).height() <= 65534,
        ensures
            final(self).wf(),
            final(self).extends(*old(self)),
            final(self).g2_base() == old(self).g2_base(),
            r is None ==> final(self).g2_next() == final(self).g2_base() + PAGESIZE,
            r matches Some(j) ==> {
                &&& final(self).twf(j.raw as int)
                &&& final(self).term_at(j.raw as int) == old(self).term_at(
                    e.raw as int,
                ).spec_subst(v as int, old(self).term_at(with.raw as int))
            },
        decreases e.raw,
    {
        proof {
            self.lemma_live_readable(e.raw as int);
        }
        let n = *self.get(e);
        match n.decode() {
            TermRepr::Var(u) => {
                if u == v {
                    let ghost h0 = *self;
                    let c = match self.duplicate(with) {
                        None => {
                            return None;
                        },
                        Some(x) => x,
                    };
                    let ghost h1 = *self;
                    proof {
                        lemma_max_var_shift_fits16(h1.term_at(c.raw as int), 0, v as int);
                        h1.lemma_term_max_var(c.raw as int);
                        h1.lemma_term_height(c.raw as int);
                    }
                    self.shift(c, 0, v);
                    proof {
                        assert forall|j: int| #[trigger] h1.live(j) implies self.live(j)
                            && (h0.live(j) ==> self.node(j) == h1.node(j)) by {
                            if h0.live(j) {
                                h0.lemma_live_bounds(j);
                                if h1.reach(c.raw as int).contains(j) {
                                    h1.lemma_above_reach(c.raw as int, h0.g2_next());
                                }
                            }
                        }
                        assert(self.extends(h0));
                    }
                    Some(c)
                } else if u > v {
                    self.init(Term(0, u))
                } else {
                    Some(e)
                }
            },
            TermRepr::Lam(b) => {
                let ghost h0 = *self;
                proof {
                    assert(h0.term_at(e.raw as int) == Expr::Lam(
                        Box::new(h0.term_at(n.lam_body())),
                    ));
                }
                let nb = match self.subst_idx(b, v + 1, with) {
                    None => {
                        return None;
                    },
                    Some(x) => x,
                };
                let ghost h1 = *self;
                proof {
                    h1.lemma_live_bounds(nb.raw as int);
                }
                match self.init(Term::encode(TermRepr::Lam(nb))) {
                    None => {
                        proof {
                            Self::lemma_extends_trans(*self, h1, h0);
                        }
                        None
                    },
                    Some(j) => {
                        proof {
                            assert(final(self).extends(h1));
                            Self::lemma_extends_trans(*self, h1, h0);
                            Self::lemma_extends_term(h1, *self, nb.raw as int, 0);
                            self.lemma_live_bounds(j.raw as int);
                            assert(self.term_at(j.raw as int) == Expr::Lam(
                                Box::new(self.term_at(nb.raw as int)),
                            ));
                        }
                        Some(j)
                    },
                }
            },
            TermRepr::App(l, rr) => {
                let ghost h0 = *self;
                proof {
                    assert(h0.term_at(e.raw as int) == Expr::App(
                        Box::new(h0.term_at(n.app_left())),
                        Box::new(h0.term_at(n.app_right())),
                    ));
                }
                let nl = match self.subst_idx(l, v, with) {
                    None => {
                        return None;
                    },
                    Some(x) => x,
                };
                let ghost h1 = *self;
                proof {
                    Self::lemma_extends_term(h0, h1, rr.raw as int, 0);
                    Self::lemma_extends_term(h0, h1, with.raw as int, 0);
                }
                let nr = match self.subst_idx(rr, v, with) {
                    None => {
                        proof {
                            Self::lemma_extends_trans(*self, h1, h0);
                        }
                        return None;
                    },
                    Some(x) => x,
                };
                let ghost h2 = *self;
                proof {
                    Self::lemma_extends_trans(h2, h1, h0);
                    Self::lemma_extends_term(h1, h2, nl.raw as int, 0);
                    h2.lemma_live_bounds(nl.raw as int);
                    h2.lemma_live_bounds(nr.raw as int);
                }
                match self.init(Term::encode(TermRepr::App(nl, nr))) {
                    None => {
                        proof {
                            Self::lemma_extends_trans(*self, h2, h0);
                        }
                        None
                    },
                    Some(j) => {
                        proof {
                            assert(final(self).extends(h2));
                            Self::lemma_extends_trans(*self, h2, h0);
                            Self::lemma_extends_term(h2, *self, nl.raw as int, 0);
                            Self::lemma_extends_term(h2, *self, nr.raw as int, 0);
                            self.lemma_live_bounds(j.raw as int);
                            assert(self.term_at(j.raw as int) == Expr::App(
                                Box::new(self.term_at(nl.raw as int)),
                                Box::new(self.term_at(nr.raw as int)),
                            ));
                        }
                        Some(j)
                    },
                }
            },
            _ => Some(e),
        }
    }

    /// Beta-reduce the redex at `at`, building the reduct out of fresh
    /// spine nodes and copies of the argument (one per substituted
    /// occurrence), and handing back its root. A non-redex comes back
    /// unchanged as its own handle; nothing is returned when allocation
    /// fails partway. Every node that was live before is untouched
    /// either way.
    pub fn beta(&mut self, at: Idx<Term>) -> (r: Option<Idx<Term>>)
        requires
            old(self).wf(),
            old(self).twf(at.raw as int),
            old(self).term_at(at.raw as int) matches Expr::App(bl, br) && *bl matches
                Expr::Lam(bb) ==> br.max_var() + bb.height() <= 65534,
        ensures
            final(self).wf(),
            final(self).extends(*old(self)),
            final(self).g2_base() == old(self).g2_base(),
            r is None ==> final(self).g2_next() == final(self).g2_base() + PAGESIZE,
            !old(self).term_at(at.raw as int).spec_is_redex() ==> r == Some(at)
                && *final(self) == *old(self),
            r matches Some(j) ==> {
                &&& final(self).twf(j.raw as int)
                &&& final(self).term_at(j.raw as int) == old(self).term_at(
                    at.raw as int,
                ).spec_beta()
            },
    {
        proof {
            self.lemma_live_readable(at.raw as int);
        }
        let n = *self.get(at);
        match n.decode() {
            TermRepr::App(l, rr) => {
                proof {
                    assert(self.twf(l.raw as int));
                    self.lemma_live_readable(l.raw as int);
                }
                let ln = *self.get(l);
                match ln.decode() {
                    TermRepr::Lam(b) => {
                        proof {
                            assert(self.twf(b.raw as int));
                            self.lemma_term_height(b.raw as int);
                            assert(old(self).term_at(at.raw as int) == Expr::App(
                                Box::new(old(self).term_at(n.app_left())),
                                Box::new(old(self).term_at(n.app_right())),
                            ));
                            assert(old(self).term_at(l.raw as int) == Expr::Lam(
                                Box::new(old(self).term_at(ln.lam_body())),
                            ));
                        }
                        self.subst_idx(b, 0, rr)
                    },
                    _ => Some(at),
                }
            },
            _ => Some(at),
        }
    }

    /// Whether the node at `at` is a redex: an application whose left
    /// side is an abstraction.
    pub fn is_redux(&self, at: Idx<Term>) -> (r: bool)
        requires
            self.wf(),
            self.twf(at.raw as int),
        ensures
            r == self.term_at(at.raw as int).spec_is_redex(),
    {
        proof {
            self.lemma_live_readable(at.raw as int);
        }
        match self.get(at).decode() {
            TermRepr::App(l, _) => {
                proof {
                    assert(self.twf(l.raw as int));
                    self.lemma_live_readable(l.raw as int);
                    let n = self.node(at.raw as int);
                    assert(self.term_at(at.raw as int) == Expr::App(
                        Box::new(self.term_at(n.app_left())),
                        Box::new(self.term_at(n.app_right())),
                    ));
                }
                match self.get(l).decode() {
                    TermRepr::Lam(_) => true,
                    _ => false,
                }
            },
            _ => false,
        }
    }

    /// The head redex: descend the left spine (through lambda bodies and
    /// left sides of applications) to the outermost redex, if any.
    pub fn head(&self, at: Idx<Term>) -> (r: Option<Idx<Term>>)
        requires
            self.wf(),
            self.twf(at.raw as int),
        ensures
            r is Some <==> self.term_at(at.raw as int).spec_head_opt() is Some,
            r matches Some(j) ==> self.twf(j.raw as int) && Some(self.term_at(j.raw as int))
                == self.term_at(at.raw as int).spec_head_opt(),
        decreases at.raw,
    {
        if self.is_redux(at) {
            Some(at)
        } else {
            proof {
                self.lemma_live_readable(at.raw as int);
            }
            match self.get(at).decode() {
                TermRepr::Lam(e) => self.head(e),
                TermRepr::App(l, _) => self.head(l),
                _ => None,
            }
        }
    }

    /// The first redex in pre-order: outermost first, left before right.
    pub fn redux(&self, at: Idx<Term>) -> (r: Option<Idx<Term>>)
        requires
            self.wf(),
            self.twf(at.raw as int),
        ensures
            r is Some <==> self.term_at(at.raw as int).spec_redux_opt() is Some,
            r matches Some(j) ==> self.twf(j.raw as int) && Some(self.term_at(j.raw as int))
                == self.term_at(at.raw as int).spec_redux_opt(),
        decreases at.raw,
    {
        if self.is_redux(at) {
            Some(at)
        } else {
            proof {
                self.lemma_live_readable(at.raw as int);
            }
            match self.get(at).decode() {
                TermRepr::Lam(e) => self.redux(e),
                TermRepr::App(l, r2) => {
                    match self.redux(l) {
                        Some(j) => Some(j),
                        None => self.redux(r2),
                    }
                },
                _ => None,
            }
        }
    }
}

} // verus!
