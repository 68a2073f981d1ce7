//! Tests of the boxed term algorithms: shifting, beta, normalisation,
//! eta-conversion and Church numerals, and of the bump arena.

use picolambda::arena::Arena;
use picolambda::expr::app;
use picolambda::expr::combinator_plus;
use picolambda::expr::combinator_power;
use picolambda::expr::combinator_succ;
use picolambda::expr::lam;
use picolambda::expr::Expr;

#[test]
fn shift_then_unshift_restores() {
    // λ(1 0): only the free 1 moves.
    let original = lam(app(Expr::Var(1), Expr::Var(0)));
    let mut t = original.clone();
    t.shift(0, 2);
    assert_eq!(t, lam(app(Expr::Var(3), Expr::Var(0))));
    t.unshift(0);
    t.unshift(0);
    assert_eq!(t, original);
}

#[test]
fn closed_counts_free_variables() {
    let id = lam(Expr::Var(0));
    assert!(id.closed(0));
    let open = lam(Expr::Var(1));
    assert!(!open.closed(0));
    assert!(open.closed(1));
}

#[test]
fn beta_reduces_a_redex_and_leaves_the_rest() {
    // (λ0) x reduces to x; a non-redex is untouched.
    let mut t = app(lam(Expr::Var(0)), Expr::Var(7));
    assert!(t.beta());
    assert_eq!(t, Expr::Var(7));
    let mut u = app(Expr::Var(1), Expr::Var(2));
    assert!(!u.beta());
    assert_eq!(u, app(Expr::Var(1), Expr::Var(2)));
}

#[test]
fn beta_substitutes_capture_avoidingly() {
    // (λλ(1)) 0 : the argument's free 0 is raised past the remaining
    // binder, giving λ(1).
    let mut t = app(lam(lam(Expr::Var(1))), Expr::Var(0));
    assert!(t.beta());
    assert_eq!(t, lam(Expr::Var(1)));
}

#[test]
fn from_nat_to_nat_round_trip() {
    for n in [0u32, 1, 2, 5, 16, 100] {
        let t = Expr::from_nat(n);
        assert_eq!(t.to_nat(), Some(n));
    }
    assert_eq!(Expr::from_nat(2), lam(lam(app(Expr::Var(1), app(Expr::Var(1), Expr::Var(0))))));
    // Not a numeral shape.
    assert_eq!(lam(Expr::Var(0)).to_nat(), None);
    assert_eq!(lam(lam(Expr::Var(1))).to_nat(), None);
}

#[test]
fn nf_normalizes_and_is_idempotent() {
    // PLUS 1 1 normalises to 2, and normalising again changes nothing.
    let mut t = app(app(combinator_plus(), Expr::from_nat(1)), Expr::from_nat(1));
    t.nf();
    assert_eq!(t.to_nat(), Some(2));
    let once = t.clone();
    t.nf();
    assert_eq!(t, once);
}

#[test]
fn power_computes_sixteen() {
    let mut t = app(app(combinator_power(), Expr::from_nat(2)), Expr::from_nat(4));
    t.nf();
    assert_eq!(t.to_nat(), Some(16));
}

#[test]
fn hnf_reduces_plus_one_to_succ() {
    let mut t = app(combinator_plus(), Expr::from_nat(1));
    t.hnf();
    assert_eq!(t, combinator_succ());
}

#[test]
fn head_and_find_redux_pick_positions() {
    // λ((λ0) 1) has its head redex inside the lambda.
    let red = app(lam(Expr::Var(0)), Expr::Var(1));
    let t = lam(red.clone());
    assert_eq!(t.head(), Some(&red));
    assert_eq!(t.find_redux(), Some(&red));
    assert_eq!(lam(Expr::Var(0)).head(), None);
}

#[test]
fn eta_reduce_and_expand() {
    // λ(1 0) eta-reduces to 0 (the free 1 renumbers down one binder).
    let mut t = lam(app(Expr::Var(1), Expr::Var(0)));
    assert!(t.eta_reduce());
    assert_eq!(t, Expr::Var(0));
    // λ(0 0) is no eta-redex: 0 occurs free in the function part.
    let mut u = lam(app(Expr::Var(0), Expr::Var(0)));
    assert!(!u.eta_reduce());
    // Expansion wraps and renumbers.
    let mut v = Expr::Var(0);
    v.eta_expand();
    assert_eq!(v, lam(app(Expr::Var(1), Expr::Var(0))));
}

#[test]
fn replace_slot_and_ends() {
    let mut ctx = lam(app(Expr::Slot, Expr::Var(2)));
    assert_eq!(ctx.replace_slot(Expr::Var(9)), None);
    assert_eq!(ctx, lam(app(Expr::Var(9), Expr::Var(2))));
    // Without a slot the value comes back.
    let mut noslot = lam(Expr::Var(0));
    assert_eq!(noslot.replace_slot(Expr::Var(9)), Some(Expr::Var(9)));
    // Leftmost and rightmost leaves.
    let t = lam(app(app(Expr::Var(1), Expr::Hole), Expr::Var(2)));
    assert_eq!(t.leftmost(), &Expr::Var(1));
    assert_eq!(t.rightmost(), &Expr::Var(2));
}

#[test]
fn slot_parent_and_siblings() {
    let ctx = app(Expr::Var(1), Expr::Slot);
    assert_eq!(ctx.find_slot_parent(), Some(&ctx));
    assert_eq!(ctx.find_slot_leftsib(), Some(&Expr::Var(1)));
    assert!(ctx.find_slot_rightsib().is_none());
    let ctx2 = app(Expr::Slot, Expr::Var(4));
    assert_eq!(ctx2.find_slot_rightsib(), Some(&Expr::Var(4)));
    assert!(lam(Expr::Var(0)).find_slot_parent().is_none());
}

#[test]
fn arena_allocates_increasing_handles() {
    let store: Vec<u32> = vec![0; 5];
    let mut arena: Arena<u32> = Arena::new(store);
    let a = arena.allocate().unwrap();
    let b = arena.allocate().unwrap();
    assert_eq!(a.raw, 1);
    assert_eq!(b.raw, 2);
    arena.get_mut(a, 10);
    assert_eq!(*arena.get(a), 10);
    assert_eq!(*arena.get(b), 0);
    let _c = arena.allocate().unwrap();
    let _d = arena.allocate().unwrap();
    assert!(arena.allocate().is_none());
}
