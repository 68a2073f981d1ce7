//! Lambda terms with de Bruijn indices, and the algorithms on them:
//! shifting, capture-avoiding substitution, beta-reduction, redex search,
//! normalisation, eta-conversion and Church numeral coding.

use vstd::prelude::*;

verus! {

/// A lambda term in de Bruijn form.
///
/// `Var(u)` counts the lambdas between the variable and its binder
/// (`0` is the innermost). `Hole` is an empty placeholder that is not the
/// editor focus, `Slot` is the unique marker for the focus position inside an
/// editor context, and `Thunk(s)` is a transient marker used by two-pass
/// substitution schemes, recording a shift level; the algorithms here leave
/// `Slot` and `Thunk` nodes untouched.
#[derive(Debug, PartialEq, Eq)]
pub enum Expr {
    Var(u32),
    Lam(Box<Expr>),
    App(Box<Expr>, Box<Expr>),
    Hole,
    Slot,
    Thunk(u32),
}

impl Clone for Expr {
    /// Deep copy; the result is structurally equal to the original and
    /// shares no node with it.
    fn clone(&self) -> (r: Self)
        ensures
            r == *self,
        decreases *self,
    {
        match self {
            Expr::Var(u) => Expr::Var(*u),
            Expr::Lam(b) => Expr::Lam(Box::new((**b).clone())),
            Expr::App(l, r) => Expr::App(Box::new((**l).clone()), Box::new((**r).clone())),
            Expr::Hole => Expr::Hole,
            Expr::Slot => Expr::Slot,
            Expr::Thunk(s) => Expr::Thunk(*s),
        }
    }
}

/// Wrap a term in an abstraction.
pub fn lam(e: Expr) -> (r: Expr)
    ensures
        r == Expr::Lam(Box::new(e)),
{
    Expr::Lam(Box::new(e))
}

/// Apply `l` to `r`.
pub fn app(l: Expr, r: Expr) -> (res: Expr)
    ensures
        res == Expr::App(Box::new(l), Box::new(r)),
{
    Expr::App(Box::new(l), Box::new(r))
}

impl Expr {
    /// Height of the term tree: leaves have height 0.
    pub open spec fn height(self) -> nat
        decreases self,
    {
        match self {
            Expr::Lam(b) => 1 + b.height(),
            Expr::App(l, r) => 1 + if l.height() >= r.height() {
                l.height()
            } else {
                r.height()
            },
            _ => 0,
        }
    }

    /// The largest variable index occurring anywhere in the term
    /// (bound or free); 0 when no variable occurs.
    pub open spec fn max_var(self) -> nat
        decreases self,
    {
        match self {
            Expr::Var(u) => u as nat,
            Expr::Lam(b) => b.max_var(),
            Expr::App(l, r) => if l.max_var() >= r.max_var() {
                l.max_var()
            } else {
                r.max_var()
            },
            _ => 0,
        }
    }

    /// All variables at or above level `v` are free at that level; the term
    /// is closed at level `v` when none exists.
    pub open spec fn spec_closed(self, v: int) -> bool
        decreases self,
    {
        match self {
            Expr::Var(u) => u < v,
            Expr::Lam(b) => b.spec_closed(v + 1),
            Expr::App(l, r) => l.spec_closed(v) && r.spec_closed(v),
            _ => true,
        }
    }

    /// `true` when the variable with index `v` (counted from the level at
    /// which the question is asked) occurs free in the term.
    pub open spec fn spec_occurs(self, v: int) -> bool
        decreases self,
    {
        match self {
            Expr::Var(u) => u == v,
            Expr::Lam(b) => b.spec_occurs(v + 1),
            Expr::App(l, r) => l.spec_occurs(v) || r.spec_occurs(v),
            _ => false,
        }
    }
}

/// Check whether all variables of `e` at or above level `v` are below `v`,
/// i.e. whether `e` has no free variables at level `v`.
/// `closed(0)` asks whether the whole term is closed.
impl Expr {
    pub fn closed(&self, v: u32) -> (r: bool)
        requires
            v + self.height() <= u32::MAX,
        ensures
            r == self.spec_closed(v as int),
        decreases *self,
    {
        match self {
            Expr::Var(u) => *u < v,
            Expr::Lam(b) => b.closed(v + 1),
            Expr::App(l, r) => l.closed(v) && r.closed(v),
            _ => true,
        }
    }
}

impl Expr {
    /// Renumbering of free variables: every `Var(u)` with `u >= v` becomes
    /// `Var(u + amount)`; crossing a lambda raises the level `v` by one, so
    /// bound variables are untouched. A negative `amount` renumbers
    /// downwards.
    pub open spec fn spec_shift(self, v: int, amount: int) -> Expr
        decreases self,
    {
        match self {
            Expr::Var(u) => if u >= v {
                Expr::Var((u + amount) as u32)
            } else {
                Expr::Var(u)
            },
            Expr::Lam(b) => Expr::Lam(Box::new(b.spec_shift(v + 1, amount))),
            Expr::App(l, r) => Expr::App(
                Box::new(l.spec_shift(v, amount)),
                Box::new(r.spec_shift(v, amount)),
            ),
            _ => self,
        }
    }

    /// Every variable that `spec_shift(v, amount)` renumbers stays within
    /// `0 ..= u32::MAX`.
    pub open spec fn shift_fits(self, v: int, amount: int) -> bool
        decreases self,
    {
        match self {
            Expr::Var(u) => u >= v ==> 0 <= u + amount <= u32::MAX,
            Expr::Lam(b) => b.shift_fits(v + 1, amount),
            Expr::App(l, r) => l.shift_fits(v, amount) && r.shift_fits(v, amount),
            _ => true,
        }
    }

    /// Raise every free variable at or above level `v` by `amount`, in
    /// place. Crossing a lambda raises the level by one.
    pub fn shift(&mut self, v: u32, amount: u32)
        requires
            v + old(self).height() <= u32::MAX,
            old(self).shift_fits(v as int, amount as int),
        ensures
            *final(self) == old(self).spec_shift(v as int, amount as int),
        decreases *old(self),
    {
        match self {
            Expr::Var(u) => {
                if *u >= v {
                    *u = *u + amount;
                }
            },
            Expr::Lam(b) => {
                b.shift(v + 1, amount);
            },
            Expr::App(l, r) => {
                l.shift(v, amount);
                r.shift(v, amount);
            },
            _ => {},
        }
    }

    /// Lower every free variable at or above level `v` by one, in place:
    /// the inverse of `shift(v, 1)`. The caller must make sure no affected
    /// variable is 0 (that is, for `v == 0`, that the variable bound by an
    /// eliminated binder no longer occurs).
    pub fn unshift(&mut self, v: u32)
        requires
            v + old(self).height() <= u32::MAX,
            old(self).shift_fits(v as int, -1),
        ensures
            *final(self) == old(self).spec_shift(v as int, -1),
        decreases *old(self),
    {
        match self {
            Expr::Var(u) => {
                if *u >= v {
                    *u = *u - 1;
                }
            },
            Expr::Lam(b) => {
                b.unshift(v + 1);
            },
            Expr::App(l, r) => {
                l.unshift(v);
                r.unshift(v);
            },
            _ => {},
        }
    }
}

/// A bound on the variable indices reached when shifting up by `amount`
/// implies that the shift fits.
pub proof fn lemma_max_var_shift_fits(e: Expr, v: int, amount: int)
    requires
        0 <= amount,
        e.max_var() + amount <= u32::MAX,
    ensures
        e.shift_fits(v, amount),
    decreases e,
{
    match e {
        Expr::Lam(b) => lemma_max_var_shift_fits(*b, v + 1, amount),
        Expr::App(l, r) => {
            lemma_max_var_shift_fits(*l, v, amount);
            lemma_max_var_shift_fits(*r, v, amount);
        },
        _ => {},
    }
}

impl Expr {
    /// Capture-avoiding substitution under `v` binders, as used by beta:
    /// `Var(v)` becomes a copy of `r` with its free variables raised by `v`;
    /// free variables above `v` drop by one (the binder being eliminated is
    /// gone); bound variables are untouched.
    pub open spec fn spec_subst(self, v: int, r: Expr) -> Expr
        decreases self,
    {
        match self {
            Expr::Var(u) => if u == v {
                r.spec_shift(0, v)
            } else if u > v {
                Expr::Var((u - 1) as u32)
            } else {
                Expr::Var(u)
            },
            Expr::Lam(b) => Expr::Lam(Box::new(b.spec_subst(v + 1, r))),
            Expr::App(l, r2) => Expr::App(
                Box::new(l.spec_subst(v, r)),
                Box::new(r2.spec_subst(v, r)),
            ),
            _ => self,
        }
    }

    /// `true` exactly on terms of the shape `App(Lam(_), _)`.
    pub open spec fn spec_is_redex(self) -> bool {
        match self {
            Expr::App(l, _) => match *l {
                Expr::Lam(_) => true,
                _ => false,
            },
            _ => false,
        }
    }

    /// One beta step at the root: `App(Lam(b), r)` becomes `b` with `r`
    /// substituted for the bound variable; any other term is unchanged.
    pub open spec fn spec_beta(self) -> Expr {
        match self {
            Expr::App(l, r) => match *l {
                Expr::Lam(b) => b.spec_subst(0, *r),
                _ => self,
            },
            _ => self,
        }
    }

    /// The machine limits under which a beta step at the root can be
    /// computed on 32-bit variable indices.
    pub open spec fn beta_fits(self) -> bool {
        match self {
            Expr::App(l, r) => match *l {
                Expr::Lam(b) => b.height() <= u32::MAX && r.height() <= u32::MAX
                    && r.max_var() + b.height() <= u32::MAX,
                _ => true,
            },
            _ => true,
        }
    }

    /// In-place substitution of `r` for the variable bound `v` levels up.
    fn subst(&mut self, v: u32, r: &Expr)
        requires
            v + old(self).height() <= u32::MAX,
            r.max_var() + v + old(self).height() <= u32::MAX,
            r.height() <= u32::MAX,
        ensures
            *final(self) == old(self).spec_subst(v as int, *r),
        decreases *old(self),
    {
        match self {
            Expr::Var(u) => {
                if *u == v {
                    let mut c = r.clone();
                    proof {
                        lemma_max_var_shift_fits(*r, 0, v as int);
                    }
                    c.shift(0, v);
                    *self = c;
                } else if *u > v {
                    *u = *u - 1;
                }
            },
            Expr::Lam(b) => {
                b.subst(v + 1, r);
            },
            Expr::App(l, r2) => {
                l.subst(v, r);
                r2.subst(v, r);
            },
            _ => {},
        }
    }

    /// Beta-reduce the root if it is a redex, in place. Returns whether a
    /// reduction happened; a non-redex is left unchanged.
    pub fn beta(&mut self) -> (reduced: bool)
        requires
            old(self).beta_fits(),
        ensures
            reduced == old(self).spec_is_redex(),
            *final(self) == old(self).spec_beta(),
    {
        let mut e = Expr::Hole;
        core::mem::swap(self, &mut e);
        match e {
            Expr::App(l, arg) => {
                match *l {
                    Expr::Lam(mut b) => {
                        b.subst(0, &arg);
                        *self = *b;
                        true
                    },
                    l_other => {
                        *self = Expr::App(Box::new(l_other), arg);
                        false
                    },
                }
            },
            other => {
                *self = other;
                false
            },
        }
    }
}

impl Expr {
    /// Whether some subterm is a redex.
    pub open spec fn spec_has_redex(self) -> bool
        decreases self,
    {
        self.spec_is_redex() || match self {
            Expr::Lam(b) => b.spec_has_redex(),
            Expr::App(l, r) => l.spec_has_redex() || r.spec_has_redex(),
            _ => false,
        }
    }

    /// Whether the left spine (descending through lambda bodies and the
    /// left sides of applications) reaches a redex.
    pub open spec fn spec_has_head_redex(self) -> bool
        decreases self,
    {
        self.spec_is_redex() || match self {
            Expr::Lam(b) => b.spec_has_head_redex(),
            Expr::App(l, _) => l.spec_has_head_redex(),
            _ => false,
        }
    }

    /// Reduce the first redex in pre-order (outermost first, left before
    /// right); a term in normal form is unchanged.
    pub open spec fn spec_step(self) -> Expr
        decreases self,
    {
        if self.spec_is_redex() {
            self.spec_beta()
        } else {
            match self {
                Expr::Lam(b) => Expr::Lam(Box::new(b.spec_step())),
                Expr::App(l, r) => if l.spec_has_redex() {
                    Expr::App(Box::new(l.spec_step()), r)
                } else {
                    Expr::App(l, Box::new(r.spec_step()))
                },
                _ => self,
            }
        }
    }

    /// Reduce the head redex; a term without one is unchanged.
    pub open spec fn spec_head_step(self) -> Expr
        decreases self,
    {
        if self.spec_is_redex() {
            self.spec_beta()
        } else {
            match self {
                Expr::Lam(b) => Expr::Lam(Box::new(b.spec_head_step())),
                Expr::App(l, r) => Expr::App(Box::new(l.spec_head_step()), r),
                _ => self,
            }
        }
    }

    /// The machine limits under which the beta step taken by `spec_step`
    /// can be computed on 32-bit variable indices.
    pub open spec fn step_fits(self) -> bool
        decreases self,
    {
        if self.spec_is_redex() {
            self.beta_fits()
        } else {
            match self {
                Expr::Lam(b) => b.step_fits(),
                Expr::App(l, r) => if l.spec_has_redex() {
                    l.step_fits()
                } else {
                    r.step_fits()
                },
                _ => true,
            }
        }
    }

    /// As `step_fits`, for the head reduction step.
    pub open spec fn head_step_fits(self) -> bool
        decreases self,
    {
        if self.spec_is_redex() {
            self.beta_fits()
        } else {
            match self {
                Expr::Lam(b) => b.head_step_fits(),
                Expr::App(l, _) => l.head_step_fits(),
                _ => true,
            }
        }
    }

    /// `n` pre-order reduction steps.
    pub open spec fn spec_iter_step(self, n: nat) -> Expr
        decreases n,
    {
        if n == 0 {
            self
        } else {
            self.spec_step().spec_iter_step((n - 1) as nat)
        }
    }

    /// `n` head reduction steps.
    pub open spec fn spec_iter_head(self, n: nat) -> Expr
        decreases n,
    {
        if n == 0 {
            self
        } else {
            self.spec_head_step().spec_iter_head((n - 1) as nat)
        }
    }

    /// The iterated pre-order reduction reaches a normal form.
    pub open spec fn normalizes(self) -> bool {
        exists|n: nat| !self.spec_iter_step(n).spec_has_redex()
    }

    /// The iterated head reduction reaches a head-normal form.
    pub open spec fn head_normalizes(self) -> bool {
        exists|n: nat| !self.spec_iter_head(n).spec_has_head_redex()
    }

    /// Every intermediate term of the pre-order reduction stays within the
    /// 32-bit machine limits.
    pub open spec fn all_steps_fit(self) -> bool {
        forall|n: nat| #[trigger] self.spec_iter_step(n).step_fits()
    }

    /// Every intermediate term of the head reduction stays within the
    /// 32-bit machine limits.
    pub open spec fn all_head_steps_fit(self) -> bool {
        forall|n: nat| #[trigger] self.spec_iter_head(n).head_step_fits()
    }

    /// The normal form reached by iterated pre-order reduction
    /// (meaningful when `normalizes` holds).
    pub open spec fn nf_of(self) -> Expr {
        self.spec_iter_step(choose|n: nat| !self.spec_iter_step(n).spec_has_redex())
    }

    /// The head-normal form reached by iterated head reduction
    /// (meaningful when `head_normalizes` holds).
    pub open spec fn hnf_of(self) -> Expr {
        self.spec_iter_head(choose|n: nat| !self.spec_iter_head(n).spec_has_head_redex())
    }
}

/// A term in normal form is left unchanged by a reduction step.
pub proof fn lemma_step_of_normal(e: Expr)
    requires
        !e.spec_has_redex(),
    ensures
        e.spec_step() == e,
    decreases e,
{
    match e {
        Expr::Lam(b) => lemma_step_of_normal(*b),
        Expr::App(l, r) => {
            lemma_step_of_normal(*l);
            lemma_step_of_normal(*r);
        },
        _ => {},
    }
}

/// A term without a head redex is left unchanged by a head step.
pub proof fn lemma_head_step_of_normal(e: Expr)
    requires
        !e.spec_has_head_redex(),
    ensures
        e.spec_head_step() == e,
    decreases e,
{
    match e {
        Expr::Lam(b) => lemma_head_step_of_normal(*b),
        Expr::App(l, _) => lemma_head_step_of_normal(*l),
        _ => {},
    }
}

/// A term in normal form trivially satisfies the step machine limits.
proof fn lemma_no_redex_step_fits(e: Expr)
    requires
        !e.spec_has_redex(),
    ensures
        e.step_fits(),
    decreases e,
{
    match e {
        Expr::Lam(b) => lemma_no_redex_step_fits(*b),
        Expr::App(l, r) => {
            lemma_no_redex_step_fits(*l);
            lemma_no_redex_step_fits(*r);
        },
        _ => {},
    }
}

/// A term without a head redex trivially satisfies the head-step limits.
proof fn lemma_no_head_redex_fits(e: Expr)
    requires
        !e.spec_has_head_redex(),
    ensures
        e.head_step_fits(),
    decreases e,
{
    match e {
        Expr::Lam(b) => lemma_no_head_redex_fits(*b),
        Expr::App(l, _) => lemma_no_head_redex_fits(*l),
        _ => {},
    }
}

/// Iterating from a normal form goes nowhere.
pub proof fn lemma_iter_of_normal(e: Expr, n: nat)
    requires
        !e.spec_has_redex(),
    ensures
        e.spec_iter_step(n) == e,
    decreases n,
{
    if n > 0 {
        lemma_step_of_normal(e);
        lemma_iter_of_normal(e, (n - 1) as nat);
    }
}

/// Iterating from a head-normal form goes nowhere.
pub proof fn lemma_iter_head_of_normal(e: Expr, n: nat)
    requires
        !e.spec_has_head_redex(),
    ensures
        e.spec_iter_head(n) == e,
    decreases n,
{
    if n > 0 {
        lemma_head_step_of_normal(e);
        lemma_iter_head_of_normal(e, (n - 1) as nat);
    }
}

/// Reduction steps compose: `a + b` steps are `a` steps followed by `b`.
pub proof fn lemma_iter_add(e: Expr, a: nat, b: nat)
    ensures
        e.spec_iter_step(a + b) == e.spec_iter_step(a).spec_iter_step(b),
    decreases a,
{
    if a > 0 {
        lemma_iter_add(e.spec_step(), (a - 1) as nat, b);
    }
}

/// Head steps compose likewise.
pub proof fn lemma_iter_head_add(e: Expr, a: nat, b: nat)
    ensures
        e.spec_iter_head(a + b) == e.spec_iter_head(a).spec_iter_head(b),
    decreases a,
{
    if a > 0 {
        lemma_iter_head_add(e.spec_head_step(), (a - 1) as nat, b);
    }
}

/// The pre-order reduction is deterministic, so any two step counts that
/// reach a normal form reach the same one.
pub proof fn lemma_normal_unique(e: Expr, a: nat, b: nat)
    requires
        !e.spec_iter_step(a).spec_has_redex(),
        !e.spec_iter_step(b).spec_has_redex(),
    ensures
        e.spec_iter_step(a) == e.spec_iter_step(b),
{
    if a <= b {
        lemma_iter_add(e, a, (b - a) as nat);
        lemma_iter_of_normal(e.spec_iter_step(a), (b - a) as nat);
    } else {
        lemma_iter_add(e, b, (a - b) as nat);
        lemma_iter_of_normal(e.spec_iter_step(b), (a - b) as nat);
    }
}

/// As `lemma_normal_unique`, for head reduction.
pub proof fn lemma_head_normal_unique(e: Expr, a: nat, b: nat)
    requires
        !e.spec_iter_head(a).spec_has_head_redex(),
        !e.spec_iter_head(b).spec_has_head_redex(),
    ensures
        e.spec_iter_head(a) == e.spec_iter_head(b),
{
    if a <= b {
        lemma_iter_head_add(e, a, (b - a) as nat);
        lemma_iter_head_of_normal(e.spec_iter_head(a), (b - a) as nat);
    } else {
        lemma_iter_head_add(e, b, (a - b) as nat);
        lemma_iter_head_of_normal(e.spec_iter_head(b), (a - b) as nat);
    }
}

/// The normal form of a normal form is itself.
pub proof fn lemma_nf_of_normal(e: Expr)
    requires
        !e.spec_has_redex(),
    ensures
        e.nf_of() == e,
{
    assert(!e.spec_iter_step(0).spec_has_redex());
    let c = choose|n: nat| !e.spec_iter_step(n).spec_has_redex();
    lemma_iter_of_normal(e, c);
}

/// The head-normal form of a head-normal form is itself.
pub proof fn lemma_hnf_of_normal(e: Expr)
    requires
        !e.spec_has_head_redex(),
    ensures
        e.hnf_of() == e,
{
    assert(!e.spec_iter_head(0).spec_has_head_redex());
    let c = choose|n: nat| !e.spec_iter_head(n).spec_has_head_redex();
    lemma_iter_head_of_normal(e, c);
}

/// Taking one step keeps the normal form, and keeps the reduction
/// terminating.
pub proof fn lemma_nf_of_step(e: Expr)
    requires
        e.normalizes(),
    ensures
        e.spec_step().normalizes(),
        e.spec_step().nf_of() == e.nf_of(),
{
    if !e.spec_has_redex() {
        lemma_step_of_normal(e);
    } else {
        let n = choose|n: nat| !e.spec_iter_step(n).spec_has_redex();
        assert(n > 0);
        assert(e.spec_iter_step(n) == e.spec_step().spec_iter_step((n - 1) as nat));
        assert(e.spec_step().normalizes());
        let c1 = choose|m: nat| !e.spec_iter_step(m).spec_has_redex();
        let c2 = choose|m: nat| !e.spec_step().spec_iter_step(m).spec_has_redex();
        assert(e.spec_step().spec_iter_step(c2) == e.spec_iter_step(c2 + 1));
        lemma_normal_unique(e, c1, c2 + 1);
    }
}

/// As `lemma_nf_of_step`, for head reduction.
pub proof fn lemma_hnf_of_step(e: Expr)
    requires
        e.head_normalizes(),
    ensures
        e.spec_head_step().head_normalizes(),
        e.spec_head_step().hnf_of() == e.hnf_of(),
{
    if !e.spec_has_head_redex() {
        lemma_head_step_of_normal(e);
    } else {
        let n = choose|n: nat| !e.spec_iter_head(n).spec_has_head_redex();
        assert(n > 0);
        assert(e.spec_iter_head(n) == e.spec_head_step().spec_iter_head((n - 1) as nat));
        assert(e.spec_head_step().head_normalizes());
        let c1 = choose|m: nat| !e.spec_iter_head(m).spec_has_head_redex();
        let c2 = choose|m: nat| !e.spec_head_step().spec_iter_head(m).spec_has_head_redex();
        assert(e.spec_head_step().spec_iter_head(c2) == e.spec_iter_head(c2 + 1));
        lemma_head_normal_unique(e, c1, c2 + 1);
    }
}

/// The machine limits survive a step: later steps of the stepped term are
/// later steps of the original.
proof fn lemma_all_steps_fit_step(e: Expr)
    requires
        e.all_steps_fit(),
    ensures
        e.spec_step().all_steps_fit(),
{
    assert forall|n: nat| #[trigger] e.spec_step().spec_iter_step(n).step_fits() by {
        assert(e.spec_iter_step(n + 1) == e.spec_step().spec_iter_step(n));
        assert(e.spec_iter_step(n + 1).step_fits());
    }
}

/// As `lemma_all_steps_fit_step`, for head reduction.
proof fn lemma_all_head_steps_fit_step(e: Expr)
    requires
        e.all_head_steps_fit(),
    ensures
        e.spec_head_step().all_head_steps_fit(),
{
    assert forall|n: nat| #[trigger] e.spec_head_step().spec_iter_head(n).head_step_fits() by {
        assert(e.spec_iter_head(n + 1) == e.spec_head_step().spec_iter_head(n));
        assert(e.spec_iter_head(n + 1).head_step_fits());
    }
}

impl Expr {
    /// Whether some subterm is a redex.
    fn has_redex(&self) -> (b: bool)
        ensures
            b == self.spec_has_redex(),
        decreases *self,
    {
        match self {
            Expr::App(l, r) => {
                matches!(**l, Expr::Lam(_)) || l.has_redex() || r.has_redex()
            },
            Expr::Lam(b) => b.has_redex(),
            _ => false,
        }
    }

    /// Whether the left spine reaches a redex.
    fn has_head_redex(&self) -> (b: bool)
        ensures
            b == self.spec_has_head_redex(),
        decreases *self,
    {
        match self {
            Expr::App(l, _) => matches!(**l, Expr::Lam(_)) || l.has_head_redex(),
            Expr::Lam(b) => b.has_head_redex(),
            _ => false,
        }
    }

    /// Whether the root of the term is a redex.
    fn is_redex(&self) -> (b: bool)
        ensures
            b == self.spec_is_redex(),
    {
        match self {
            Expr::App(l, _) => matches!(**l, Expr::Lam(_)),
            _ => false,
        }
    }

    /// Reduce the first pre-order redex in place; report whether one existed.
    fn step_reduce(&mut self) -> (found: bool)
        requires
            old(self).step_fits(),
        ensures
            found == old(self).spec_has_redex(),
            *final(self) == old(self).spec_step(),
        decreases *old(self),
    {
        if self.is_redex() {
            self.beta();
            true
        } else {
            match self {
                Expr::Lam(b) => b.step_reduce(),
                Expr::App(l, r) => {
                    let ghost l0 = **l;
                    proof {
                        if !l0.spec_has_redex() {
                            lemma_no_redex_step_fits(l0);
                        }
                    }
                    if l.step_reduce() {
                        true
                    } else {
                        proof {
                            lemma_step_of_normal(l0);
                        }
                        r.step_reduce()
                    }
                },
                _ => false,
            }
        }
    }

    /// Reduce the head redex in place; report whether one existed.
    fn head_reduce(&mut self) -> (found: bool)
        requires
            old(self).head_step_fits(),
        ensures
            found == old(self).spec_has_head_redex(),
            *final(self) == old(self).spec_head_step(),
        decreases *old(self),
    {
        if self.is_redex() {
            self.beta();
            true
        } else {
            match self {
                Expr::Lam(b) => b.head_reduce(),
                Expr::App(l, _) => l.head_reduce(),
                _ => false,
            }
        }
    }

    /// Reduce to normal form by repeatedly contracting the first pre-order
    /// redex (outermost first, left to right). Termination is the caller's
    /// burden: the term must normalise under this strategy, within the
    /// 32-bit machine limits at each step.
    pub fn nf(&mut self)
        requires
            old(self).normalizes(),
            old(self).all_steps_fit(),
        ensures
            *final(self) == old(self).nf_of(),
            !final(self).spec_has_redex(),
    {
        let ghost orig = *self;
        let ghost mut fuel = choose|n: nat| !orig.spec_iter_step(n).spec_has_redex();
        while self.has_redex()
            invariant
                !self.spec_iter_step(fuel).spec_has_redex(),
                self.normalizes(),
                self.all_steps_fit(),
                self.nf_of() == orig.nf_of(),
            decreases fuel,
        {
            proof {
                assert(fuel > 0) by {
                    if fuel == 0 {
                        assert(self.spec_iter_step(0) == *self);
                    }
                }
                lemma_nf_of_step(*self);
                lemma_all_steps_fit_step(*self);
                assert(self.spec_iter_step(fuel) == self.spec_step().spec_iter_step(
                    (fuel - 1) as nat,
                ));
                assert(self.spec_iter_step(0) == *self);
                assert(self.step_fits());
            }
            self.step_reduce();
            proof {
                fuel = (fuel - 1) as nat;
            }
        }
        proof {
            lemma_nf_of_normal(*self);
        }
    }

    /// Reduce to head-normal form by repeatedly contracting the head
    /// redex. Termination is the caller's burden, as with `nf`.
    pub fn hnf(&mut self)
        requires
            old(self).head_normalizes(),
            old(self).all_head_steps_fit(),
        ensures
            *final(self) == old(self).hnf_of(),
            !final(self).spec_has_head_redex(),
    {
        let ghost orig = *self;
        let ghost mut fuel = choose|n: nat| !orig.spec_iter_head(n).spec_has_head_redex();
        while self.has_head_redex()
            invariant
                !self.spec_iter_head(fuel).spec_has_head_redex(),
                self.head_normalizes(),
                self.all_head_steps_fit(),
                self.hnf_of() == orig.hnf_of(),
            decreases fuel,
        {
            proof {
                assert(fuel > 0) by {
                    if fuel == 0 {
                        assert(self.spec_iter_head(0) == *self);
                    }
                }
                lemma_hnf_of_step(*self);
                lemma_all_head_steps_fit_step(*self);
                assert(self.spec_iter_head(fuel) == self.spec_head_step().spec_iter_head(
                    (fuel - 1) as nat,
                ));
                assert(self.spec_iter_head(0) == *self);
                assert(self.head_step_fits());
            }
            self.head_reduce();
            proof {
                fuel = (fuel - 1) as nat;
            }
        }
        proof {
            lemma_hnf_of_normal(*self);
        }
    }
}

/// A variable that never occurs free cannot be hit by a downward shift.
proof fn lemma_no_occurs_unshift_fits(e: Expr, v: int)
    requires
        0 <= v,
        !e.spec_occurs(v),
    ensures
        e.shift_fits(v, -1),
    decreases e,
{
    match e {
        Expr::Lam(b) => lemma_no_occurs_unshift_fits(*b, v + 1),
        Expr::App(l, r) => {
            lemma_no_occurs_unshift_fits(*l, v);
            lemma_no_occurs_unshift_fits(*r, v);
        },
        _ => {},
    }
}

impl Expr {
    /// `true` when the variable with index `v` occurs free in the term.
    pub fn occurs(&self, v: u32) -> (b: bool)
        requires
            v + self.height() <= u32::MAX,
        ensures
            b == self.spec_occurs(v as int),
        decreases *self,
    {
        match self {
            Expr::Var(u) => *u == v,
            Expr::Lam(b) => b.occurs(v + 1),
            Expr::App(l, r) => l.occurs(v) || r.occurs(v),
            _ => false,
        }
    }

    /// An eta-redex: `Lam(App(e, Var(0)))` where `e` has no free
    /// occurrence of the bound variable.
    pub open spec fn spec_eta_redex(self) -> bool {
        match self {
            Expr::Lam(b) => match *b {
                Expr::App(f, a) => *a == Expr::Var(0) && !f.spec_occurs(0),
                _ => false,
            },
            _ => false,
        }
    }

    /// Eta-reduction at the root: `Lam(App(e, Var(0)))` with no free `0`
    /// in `e` becomes `e` with its remaining free variables lowered by one.
    pub open spec fn spec_eta_reduce(self) -> Expr {
        if self.spec_eta_redex() {
            match self {
                Expr::Lam(b) => match *b {
                    Expr::App(f, _) => f.spec_shift(0, -1),
                    _ => self,
                },
                _ => self,
            }
        } else {
            self
        }
    }

    /// Eta-reduce the root if it is an eta-redex, in place. Returns whether
    /// a reduction happened.
    pub fn eta_reduce(&mut self) -> (reduced: bool)
        requires
            old(self).height() <= u32::MAX,
        ensures
            reduced == old(self).spec_eta_redex(),
            *final(self) == old(self).spec_eta_reduce(),
    {
        let mut e = Expr::Hole;
        core::mem::swap(self, &mut e);
        match e {
            Expr::Lam(b) => {
                match *b {
                    Expr::App(mut f, a) => {
                        proof {
                            assert(*old(self) == Expr::Lam(
                                Box::new(Expr::App(Box::new(*f), Box::new(*a))),
                            ));
                            assert(Expr::App(Box::new(*f), Box::new(*a)).height() == 1
                                + if f.height() >= a.height() {
                                f.height()
                            } else {
                                a.height()
                            });
                            assert(old(self).height() == 1 + Expr::App(
                                Box::new(*f),
                                Box::new(*a),
                            ).height());
                        }
                        if matches!(*a, Expr::Var(0)) && !f.occurs(0) {
                            proof {
                                lemma_no_occurs_unshift_fits(*f, 0);
                            }
                            f.unshift(0);
                            *self = *f;
                            true
                        } else {
                            *self = Expr::Lam(Box::new(Expr::App(f, a)));
                            false
                        }
                    },
                    b_other => {
                        *self = Expr::Lam(Box::new(b_other));
                        false
                    },
                }
            },
            other => {
                *self = other;
                false
            },
        }
    }

    /// Eta-expansion at the root: `e` becomes `Lam(App(shift(e, 0, 1), Var(0)))`.
    pub open spec fn spec_eta_expand(self) -> Expr {
        Expr::Lam(
            Box::new(Expr::App(Box::new(self.spec_shift(0, 1)), Box::new(Expr::Var(0)))),
        )
    }

    /// Eta-expand the term in place.
    pub fn eta_expand(&mut self)
        requires
            old(self).height() <= u32::MAX,
            old(self).shift_fits(0, 1),
        ensures
            *final(self) == old(self).spec_eta_expand(),
    {
        let mut e = Expr::Hole;
        core::mem::swap(self, &mut e);
        e.shift(0, 1);
        *self = Expr::Lam(Box::new(Expr::App(Box::new(e), Box::new(Expr::Var(0)))));
    }
}

/// Body of the Church numeral `n`: `1` applied `n` times to `0`.
pub open spec fn spec_church_body(n: nat) -> Expr
    decreases n,
{
    if n == 0 {
        Expr::Var(0)
    } else {
        Expr::App(Box::new(Expr::Var(1)), Box::new(spec_church_body((n - 1) as nat)))
    }
}

/// The Church numeral `n`: two lambdas around `spec_church_body(n)`.
pub open spec fn spec_church(n: nat) -> Expr {
    Expr::Lam(Box::new(Expr::Lam(Box::new(spec_church_body(n)))))
}

/// Count of `1`-applications in a Church numeral body of the exact shape
/// `1 (1 ... (1 0))`, or nothing for any other shape.
pub open spec fn spec_church_body_count(e: Expr) -> Option<nat>
    decreases e,
{
    match e {
        Expr::Var(u) => if u == 0 {
            Some(0)
        } else {
            None
        },
        Expr::App(l, r) => if *l == Expr::Var(1) {
            match spec_church_body_count(*r) {
                Some(k) => Some(k + 1),
                None => None,
            }
        } else {
            None
        },
        _ => None,
    }
}

impl Expr {
    /// The value of the term read as a Church numeral, when it has exactly
    /// that structure.
    pub open spec fn spec_to_nat(self) -> Option<nat> {
        match self {
            Expr::Lam(b1) => match *b1 {
                Expr::Lam(b2) => spec_church_body_count(*b2),
                _ => None,
            },
            _ => None,
        }
    }

    /// Build the Church numeral for `n`.
    pub fn from_nat(n: u32) -> (r: Expr)
        ensures
            r == spec_church(n as nat),
    {
        let mut body = Expr::Var(0);
        let mut i: u32 = 0;
        while i < n
            invariant
                i <= n,
                body == spec_church_body(i as nat),
            decreases n - i,
        {
            body = Expr::App(Box::new(Expr::Var(1)), Box::new(body));
            i = i + 1;
        }
        Expr::Lam(Box::new(Expr::Lam(Box::new(body))))
    }

    /// Read the term as a Church numeral: the count of `1`-applications
    /// when the term has exactly the shape `from_nat` builds and the count
    /// fits in 32 bits, nothing otherwise.
    pub fn to_nat(&self) -> (r: Option<u32>)
        ensures
            r == match self.spec_to_nat() {
                Some(k) => if k <= u32::MAX {
                    Some(k as u32)
                } else {
                    None::<u32>
                },
                None => None::<u32>,
            },
    {
        match self {
            Expr::Lam(b1) => match &**b1 {
                Expr::Lam(b2) => Self::church_body_count(b2),
                _ => None,
            },
            _ => None,
        }
    }

    /// Helper for `to_nat`: count the `1`-applications of a numeral body.
    fn church_body_count(e: &Expr) -> (r: Option<u32>)
        ensures
            r == match spec_church_body_count(*e) {
                Some(k) => if k <= u32::MAX {
                    Some(k as u32)
                } else {
                    None::<u32>
                },
                None => None::<u32>,
            },
        decreases *e,
    {
        match e {
            Expr::Var(u) => if *u == 0 {
                Some(0)
            } else {
                None
            },
            Expr::App(l, r) => {
                if matches!(**l, Expr::Var(1)) {
                    match Self::church_body_count(r) {
                        Some(k) => if k == u32::MAX {
                            None
                        } else {
                            Some(k + 1)
                        },
                        None => None,
                    }
                } else {
                    None
                }
            },
            _ => None,
        }
    }
}

/// Shifting up by `a` and then down by `a` at the same level restores the
/// term, whenever the upward shift stays within the machine limits.
pub proof fn lemma_shift_round_trip(e: Expr, k: int, a: int)
    requires
        0 <= a,
        e.shift_fits(k, a),
    ensures
        e.spec_shift(k, a).spec_shift(k, -a) == e,
    decreases e,
{
    match e {
        Expr::Lam(b) => lemma_shift_round_trip(*b, k + 1, a),
        Expr::App(l, r) => {
            lemma_shift_round_trip(*l, k, a);
            lemma_shift_round_trip(*r, k, a);
        },
        _ => {},
    }
}

/// Full normalisation is idempotent: normalising a term that already is
/// the normal form of some terminating reduction changes nothing.
pub proof fn lemma_nf_idempotent(e: Expr)
    requires
        e.normalizes(),
    ensures
        e.nf_of().nf_of() == e.nf_of(),
{
    let c = choose|n: nat| !e.spec_iter_step(n).spec_has_redex();
    assert(!e.nf_of().spec_has_redex());
    lemma_nf_of_normal(e.nf_of());
}

/// Reading back the Church numeral for `n` yields `n`.
pub proof fn lemma_to_nat_from_nat(n: nat)
    ensures
        spec_church(n).spec_to_nat() == Some(n),
{
    lemma_church_body_count(n);
}

proof fn lemma_church_body_count(n: nat)
    ensures
        spec_church_body_count(spec_church_body(n)) == Some(n),
    decreases n,
{
    if n > 0 {
        lemma_church_body_count((n - 1) as nat);
    }
}

/// A term that reads as the Church numeral `n` is structurally that
/// numeral.
pub proof fn lemma_to_nat_shape(e: Expr, n: nat)
    requires
        e.spec_to_nat() == Some(n),
    ensures
        e == spec_church(n),
{
    match e {
        Expr::Lam(b1) => match *b1 {
            Expr::Lam(b2) => lemma_church_body_shape(*b2, n),
            _ => {},
        },
        _ => {},
    }
}

proof fn lemma_church_body_shape(e: Expr, n: nat)
    requires
        spec_church_body_count(e) == Some(n),
    ensures
        e == spec_church_body(n),
    decreases e,
{
    match e {
        Expr::App(l, r) => {
            lemma_church_body_shape(*r, (n - 1) as nat);
        },
        _ => {},
    }
}

impl Expr {
    /// Number of `Slot` markers in the term.
    pub open spec fn num_slots(self) -> nat
        decreases self,
    {
        match self {
            Expr::Slot => 1,
            Expr::Lam(b) => b.num_slots(),
            Expr::App(l, r) => l.num_slots() + r.num_slots(),
            _ => 0,
        }
    }

    /// Number of `Thunk` markers in the term.
    pub open spec fn num_thunks(self) -> nat
        decreases self,
    {
        match self {
            Expr::Thunk(_) => 1,
            Expr::Lam(b) => b.num_thunks(),
            Expr::App(l, r) => l.num_thunks() + r.num_thunks(),
            _ => 0,
        }
    }

    /// The term with its first (and in a well-formed context, only) `Slot`
    /// replaced by `to`, together with whether a `Slot` was found.
    pub open spec fn spec_replace_slot(self, to: Expr) -> (Expr, bool)
        decreases self,
    {
        match self {
            Expr::Slot => (to, true),
            Expr::Lam(b) => {
                let (e2, f) = b.spec_replace_slot(to);
                (Expr::Lam(Box::new(e2)), f)
            },
            Expr::App(l, r) => {
                let (l2, f) = l.spec_replace_slot(to);
                if f {
                    (Expr::App(Box::new(l2), r), true)
                } else {
                    let (r2, f2) = r.spec_replace_slot(to);
                    (Expr::App(l, Box::new(r2)), f2)
                }
            },
            _ => (self, false),
        }
    }

    /// Write `to` into the unique `Slot`, in place. Returns `None` on
    /// success and gives `to` back when no `Slot` exists.
    pub fn replace_slot(&mut self, to: Expr) -> (back: Option<Expr>)
        ensures
            *final(self) == old(self).spec_replace_slot(to).0,
            back == if old(self).spec_replace_slot(to).1 {
                None::<Expr>
            } else {
                Some(to)
            },
    {
        let mut e = Expr::Hole;
        core::mem::swap(self, &mut e);
        let (e2, back) = Self::replace_slot_rec(e, to);
        *self = e2;
        back
    }

    /// When a term holds no `Slot`, writing into the slot changes nothing.
    pub proof fn lemma_replace_slot_not_found(e: Expr, to: Expr)
        ensures
            !e.spec_replace_slot(to).1 ==> e.spec_replace_slot(to).0 == e,
        decreases e,
    {
        match e {
            Expr::Lam(b) => Self::lemma_replace_slot_not_found(*b, to),
            Expr::App(l, r) => {
                Self::lemma_replace_slot_not_found(*l, to);
                Self::lemma_replace_slot_not_found(*r, to);
            },
            _ => {},
        }
    }

    fn replace_slot_rec(e: Expr, to: Expr) -> (res: (Expr, Option<Expr>))
        ensures
            res.0 == e.spec_replace_slot(to).0,
            res.1 == if e.spec_replace_slot(to).1 {
                None::<Expr>
            } else {
                Some(to)
            },
        decreases e,
    {
        match e {
            Expr::Slot => (to, None),
            Expr::Lam(b) => {
                let (e2, back) = Self::replace_slot_rec(*b, to);
                (Expr::Lam(Box::new(e2)), back)
            },
            Expr::App(l, r) => {
                let ghost l0 = *l;
                let (l2, back) = Self::replace_slot_rec(*l, to);
                match back {
                    None => (Expr::App(Box::new(l2), r), None),
                    Some(t) => {
                        proof {
                            Self::lemma_replace_slot_not_found(l0, t);
                        }
                        let (r2, back2) = Self::replace_slot_rec(*r, t);
                        (Expr::App(Box::new(l2), Box::new(r2)), back2)
                    },
                }
            },
            other => (other, Some(to)),
        }
    }

    /// The leftmost leaf (a `Var`, `Hole`, `Slot` or `Thunk`).
    pub open spec fn spec_leftmost(self) -> Expr
        decreases self,
    {
        match self {
            Expr::Lam(b) => b.spec_leftmost(),
            Expr::App(l, _) => l.spec_leftmost(),
            _ => self,
        }
    }

    /// The rightmost leaf (a `Var`, `Hole`, `Slot` or `Thunk`).
    pub open spec fn spec_rightmost(self) -> Expr
        decreases self,
    {
        match self {
            Expr::Lam(b) => b.spec_rightmost(),
            Expr::App(_, r) => r.spec_rightmost(),
            _ => self,
        }
    }

    /// The leftmost leaf of the term.
    pub fn leftmost(&self) -> (r: &Expr)
        ensures
            *r == self.spec_leftmost(),
        decreases *self,
    {
        match self {
            Expr::Lam(b) => b.leftmost(),
            Expr::App(l, _) => l.leftmost(),
            _ => self,
        }
    }

    /// The rightmost leaf of the term.
    pub fn rightmost(&self) -> (r: &Expr)
        ensures
            *r == self.spec_rightmost(),
        decreases *self,
    {
        match self {
            Expr::Lam(b) => b.rightmost(),
            Expr::App(_, r2) => r2.rightmost(),
            _ => self,
        }
    }

    /// The node whose direct child is the first `Slot`, if any.
    pub open spec fn spec_slot_parent(self) -> Option<Expr>
        decreases self,
    {
        match self {
            Expr::Lam(b) => if *b == Expr::Slot {
                Some(self)
            } else {
                b.spec_slot_parent()
            },
            Expr::App(l, r) => if *l == Expr::Slot || *r == Expr::Slot {
                Some(self)
            } else {
                match l.spec_slot_parent() {
                    Some(p) => Some(p),
                    None => r.spec_slot_parent(),
                }
            },
            _ => None,
        }
    }

    /// Find the node whose direct child is the unique `Slot`: the parent
    /// of the editor focus within the context.
    pub fn find_slot_parent(&self) -> (r: Option<&Expr>)
        ensures
            r.is_some() == self.spec_slot_parent().is_some(),
            r matches Some(p) ==> Some(*p) == self.spec_slot_parent(),
        decreases *self,
    {
        match self {
            Expr::Lam(b) => {
                if matches!(**b, Expr::Slot) {
                    Some(self)
                } else {
                    b.find_slot_parent()
                }
            },
            Expr::App(l, r2) => {
                if matches!(**l, Expr::Slot) || matches!(**r2, Expr::Slot) {
                    Some(self)
                } else {
                    match l.find_slot_parent() {
                        Some(p) => Some(p),
                        None => r2.find_slot_parent(),
                    }
                }
            },
            _ => None,
        }
    }

    /// The leaf immediately left of the `Slot`: in the first application
    /// whose right side has the `Slot` as its leftmost leaf, the rightmost
    /// leaf of the left side.
    pub open spec fn spec_slot_leftsib(self) -> Option<Expr>
        decreases self,
    {
        match self {
            Expr::Lam(b) => b.spec_slot_leftsib(),
            Expr::App(l, r) => if r.spec_leftmost() == Expr::Slot {
                Some(l.spec_rightmost())
            } else {
                match l.spec_slot_leftsib() {
                    Some(s) => Some(s),
                    None => r.spec_slot_leftsib(),
                }
            },
            _ => None,
        }
    }

    /// The leaf immediately right of the `Slot`.
    pub open spec fn spec_slot_rightsib(self) -> Option<Expr>
        decreases self,
    {
        match self {
            Expr::Lam(b) => b.spec_slot_rightsib(),
            Expr::App(l, r) => if l.spec_rightmost() == Expr::Slot {
                Some(r.spec_leftmost())
            } else {
                match l.spec_slot_rightsib() {
                    Some(s) => Some(s),
                    None => r.spec_slot_rightsib(),
                }
            },
            _ => None,
        }
    }

    /// The sibling leaf to the left of the `Slot`, if any.
    pub fn find_slot_leftsib(&self) -> (r: Option<&Expr>)
        ensures
            r.is_some() == self.spec_slot_leftsib().is_some(),
            r matches Some(s) ==> Some(*s) == self.spec_slot_leftsib(),
        decreases *self,
    {
        match self {
            Expr::Lam(b) => b.find_slot_leftsib(),
            Expr::App(l, r2) => {
                if matches!(r2.leftmost(), Expr::Slot) {
                    Some(l.rightmost())
                } else {
                    match l.find_slot_leftsib() {
                        Some(s) => Some(s),
                        None => r2.find_slot_leftsib(),
                    }
                }
            },
            _ => None,
        }
    }

    /// The sibling leaf to the right of the `Slot`, if any.
    pub fn find_slot_rightsib(&self) -> (r: Option<&Expr>)
        ensures
            r.is_some() == self.spec_slot_rightsib().is_some(),
            r matches Some(s) ==> Some(*s) == self.spec_slot_rightsib(),
        decreases *self,
    {
        match self {
            Expr::Lam(b) => b.find_slot_rightsib(),
            Expr::App(l, r2) => {
                if matches!(l.rightmost(), Expr::Slot) {
                    Some(r2.leftmost())
                } else {
                    match l.find_slot_rightsib() {
                        Some(s) => Some(s),
                        None => r2.find_slot_rightsib(),
                    }
                }
            },
            _ => None,
        }
    }

    /// The head redex: the outermost redex on the left spine, descending
    /// through lambda bodies and left sides of applications.
    pub open spec fn spec_head_opt(self) -> Option<Expr>
        decreases self,
    {
        if self.spec_is_redex() {
            Some(self)
        } else {
            match self {
                Expr::Lam(b) => b.spec_head_opt(),
                Expr::App(l, _) => l.spec_head_opt(),
                _ => None,
            }
        }
    }

    /// The first redex in pre-order: outermost first, left before right.
    pub open spec fn spec_redux_opt(self) -> Option<Expr>
        decreases self,
    {
        if self.spec_is_redex() {
            Some(self)
        } else {
            match self {
                Expr::Lam(b) => b.spec_redux_opt(),
                Expr::App(l, r) => match l.spec_redux_opt() {
                    Some(x) => Some(x),
                    None => r.spec_redux_opt(),
                },
                _ => None,
            }
        }
    }

    /// The head redex of the term, if any.
    pub fn head(&self) -> (r: Option<&Expr>)
        ensures
            r.is_some() == self.spec_head_opt().is_some(),
            r matches Some(p) ==> Some(*p) == self.spec_head_opt(),
        decreases *self,
    {
        if self.is_redex() {
            Some(self)
        } else {
            match self {
                Expr::Lam(b) => b.head(),
                Expr::App(l, _) => l.head(),
                _ => None,
            }
        }
    }

    /// The first pre-order redex of the term, if any.
    pub fn find_redux(&self) -> (r: Option<&Expr>)
        ensures
            r.is_some() == self.spec_redux_opt().is_some(),
            r matches Some(p) ==> Some(*p) == self.spec_redux_opt(),
        decreases *self,
    {
        if self.is_redex() {
            Some(self)
        } else {
            match self {
                Expr::Lam(b) => b.find_redux(),
                Expr::App(l, r2) => match l.find_redux() {
                    Some(p) => Some(p),
                    None => r2.find_redux(),
                },
                _ => None,
            }
        }
    }
}

/// Build an abstraction, in specifications.
pub open spec fn spec_lam(e: Expr) -> Expr {
    Expr::Lam(Box::new(e))
}

/// Build an application, in specifications.
pub open spec fn spec_app(l: Expr, r: Expr) -> Expr {
    Expr::App(Box::new(l), Box::new(r))
}

impl Expr {
    /// Height of the term, saturating at `u64::MAX` (terms that large
    /// cannot be materialised, but the arithmetic must stay sound).
    fn height_sat(&self) -> (r: u64)
        ensures
            r == if self.height() <= u64::MAX {
                self.height()
            } else {
                u64::MAX as nat
            },
        decreases *self,
    {
        match self {
            Expr::Lam(b) => {
                let h = b.height_sat();
                if h == u64::MAX {
                    u64::MAX
                } else {
                    h + 1
                }
            },
            Expr::App(l, r2) => {
                let hl = l.height_sat();
                let hr = r2.height_sat();
                let h = if hl >= hr {
                    hl
                } else {
                    hr
                };
                if h == u64::MAX {
                    u64::MAX
                } else {
                    h + 1
                }
            },
            _ => 0,
        }
    }

    /// The largest variable index in the term; variables are 32-bit, so
    /// this is exact.
    fn max_var_exec(&self) -> (r: u32)
        ensures
            r == self.max_var(),
        decreases *self,
    {
        match self {
            Expr::Var(u) => *u,
            Expr::Lam(b) => b.max_var_exec(),
            Expr::App(l, r2) => {
                let ml = l.max_var_exec();
                let mr = r2.max_var_exec();
                if ml >= mr {
                    ml
                } else {
                    mr
                }
            },
            _ => 0,
        }
    }

    /// Number of `Slot` markers, saturating at `u64::MAX`.
    pub fn count_slots_sat(&self) -> (r: u64)
        ensures
            r == if self.num_slots() <= u64::MAX {
                self.num_slots()
            } else {
                u64::MAX as nat
            },
        decreases *self,
    {
        match self {
            Expr::Slot => 1,
            Expr::Lam(b) => b.count_slots_sat(),
            Expr::App(l, r2) => {
                let cl = l.count_slots_sat();
                let cr = r2.count_slots_sat();
                if cl > u64::MAX - cr {
                    u64::MAX
                } else {
                    cl + cr
                }
            },
            _ => 0,
        }
    }

    /// Decide `beta_fits`: whether a beta step at the root stays within
    /// the 32-bit machine limits.
    pub fn beta_fits_check(&self) -> (b: bool)
        ensures
            b == self.beta_fits(),
    {
        match self {
            Expr::App(l, r2) => match &**l {
                Expr::Lam(b2) => {
                    let hb = b2.height_sat();
                    if hb > u32::MAX as u64 {
                        return false;
                    }
                    let hr = r2.height_sat();
                    if hr > u32::MAX as u64 {
                        return false;
                    }
                    let mv = r2.max_var_exec();
                    mv as u64 + hb <= u32::MAX as u64
                },
                _ => true,
            },
            _ => true,
        }
    }
}

/// The identity combinator `I`: `λ0`.
pub open spec fn spec_id() -> Expr {
    spec_lam(Expr::Var(0))
}

/// The constant combinator `K`: `λλ1`.
pub open spec fn spec_const() -> Expr {
    spec_lam(spec_lam(Expr::Var(1)))
}

/// The distributing combinator `S`: `λλλ((2 0) (1 0))`.
pub open spec fn spec_fork() -> Expr {
    let body = spec_app(
        spec_app(Expr::Var(2), Expr::Var(0)),
        spec_app(Expr::Var(1), Expr::Var(0)),
    );
    spec_lam(spec_lam(spec_lam(body)))
}

/// The successor on Church numerals: `λλλ(1 ((2 1) 0))`.
pub open spec fn spec_succ() -> Expr {
    let applied = spec_app(spec_app(Expr::Var(2), Expr::Var(1)), Expr::Var(0));
    let body = spec_app(Expr::Var(1), applied);
    spec_lam(spec_lam(spec_lam(body)))
}

/// Addition on Church numerals: `λλλλ((3 1) ((2 1) 0))`.
pub open spec fn spec_plus() -> Expr {
    let right = spec_app(spec_app(Expr::Var(2), Expr::Var(1)), Expr::Var(0));
    let body = spec_app(spec_app(Expr::Var(3), Expr::Var(1)), right);
    spec_lam(spec_lam(spec_lam(spec_lam(body))))
}

/// Multiplication on Church numerals: `λλλλ((3 (2 1)) 0)`.
pub open spec fn spec_times() -> Expr {
    let left = spec_app(Expr::Var(3), spec_app(Expr::Var(2), Expr::Var(1)));
    let body = spec_app(left, Expr::Var(0));
    spec_lam(spec_lam(spec_lam(spec_lam(body))))
}

/// Exponentiation on Church numerals: `λλλλ(((2 3) 1) 0)`.
pub open spec fn spec_power() -> Expr {
    let left = spec_app(spec_app(Expr::Var(2), Expr::Var(3)), Expr::Var(1));
    let body = spec_app(left, Expr::Var(0));
    spec_lam(spec_lam(spec_lam(spec_lam(body))))
}

/// Build the identity combinator `I`.
pub fn combinator_id() -> (r: Expr)
    ensures
        r == spec_id(),
{
    lam(Expr::Var(0))
}

/// Build the constant combinator `K`.
pub fn combinator_const() -> (r: Expr)
    ensures
        r == spec_const(),
{
    lam(lam(Expr::Var(1)))
}

/// Build the distributing combinator `S`.
pub fn combinator_fork() -> (r: Expr)
    ensures
        r == spec_fork(),
{
    lam(lam(lam(app(
        app(Expr::Var(2), Expr::Var(0)),
        app(Expr::Var(1), Expr::Var(0)),
    ))))
}

/// Build the successor combinator on Church numerals.
pub fn combinator_succ() -> (r: Expr)
    ensures
        r == spec_succ(),
{
    lam(lam(lam(app(
        Expr::Var(1),
        app(app(Expr::Var(2), Expr::Var(1)), Expr::Var(0)),
    ))))
}

/// Build the addition combinator on Church numerals.
pub fn combinator_plus() -> (r: Expr)
    ensures
        r == spec_plus(),
{
    lam(lam(lam(lam(app(
        app(Expr::Var(3), Expr::Var(1)),
        app(app(Expr::Var(2), Expr::Var(1)), Expr::Var(0)),
    )))))
}

/// Build the multiplication combinator on Church numerals.
pub fn combinator_times() -> (r: Expr)
    ensures
        r == spec_times(),
{
    lam(lam(lam(lam(app(
        app(Expr::Var(3), app(Expr::Var(2), Expr::Var(1))),
        Expr::Var(0),
    )))))
}

/// Build the exponentiation combinator on Church numerals.
pub fn combinator_power() -> (r: Expr)
    ensures
        r == spec_power(),
{
    lam(lam(lam(lam(app(
        app(app(Expr::Var(2), Expr::Var(3)), Expr::Var(1)),
        Expr::Var(0),
    )))))
}

} // verus!
