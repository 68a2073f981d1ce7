//! Tests of the paged heap, the packed node encoding, and the term
//! algorithms over 16-bit handles.

use picolambda::heap::Heap;
use picolambda::heap::Idx;
use picolambda::term::Term;
use picolambda::term::TermRepr;

#[test]
fn test_heap() {
    let mut heap: Heap<(u16, u16), 10, 0> = Heap::new();
    assert_eq!(*heap.get(1.into()), (0u16, 0u16));
    let new = heap.alloc_g2();
    assert_eq!(new.raw, 1);
    heap.get_mut(new, (1u16, 1u16));
    assert_eq!(*heap.get(new), (1u16, 1u16));
}

#[test]
fn test_lambda_arena_dup_from() {
    let mut heap: Heap<Term, 20, 0> = Heap::new();
    let dzero = heap.init_with(|| Term::encode(TermRepr::Var(0))).unwrap();
    let id = heap.init_with(|| Term::encode(TermRepr::Lam(dzero))).unwrap();
    let id2 = heap.duplicate(id).unwrap();
    let _idid = heap
        .init_with(|| Term::encode(TermRepr::App(id, id2)))
        .unwrap();
}

/// Helper: allocate the identity `λ0` and return (body, lambda).
fn alloc_id(heap: &mut Heap<Term, 64, 0>) -> (Idx<Term>, Idx<Term>) {
    let v0 = heap.init(Term::encode(TermRepr::Var(0))).unwrap();
    let id = heap.init(Term::encode(TermRepr::Lam(v0))).unwrap();
    (v0, id)
}

#[test]
fn duplicate_is_structurally_equal_and_fresh() {
    let mut heap: Heap<Term, 64, 0> = Heap::new();
    let (v0, id) = alloc_id(&mut heap);
    let copy = heap.duplicate(id).unwrap();
    assert_ne!(copy.raw, id.raw);
    match heap.get(copy).decode() {
        TermRepr::Lam(body) => {
            assert_ne!(body.raw, v0.raw);
            assert_eq!(*heap.get(body), Term::encode(TermRepr::Var(0)));
        }
        _ => panic!("copy is not a lambda"),
    }
}

#[test]
fn heap_encoding_round_trip() {
    // Hole <-> (0,0); Var(u) <-> (0, u+1); Lam(e) <-> (e, 0); App <-> (l, r).
    assert_eq!(Term::encode(TermRepr::Hole), Term(0, 0));
    assert_eq!(Term::encode(TermRepr::Var(4)), Term(0, 5));
    assert_eq!(Term::encode(TermRepr::Lam(Idx::from_raw(7))), Term(7, 0));
    assert_eq!(
        Term::encode(TermRepr::App(Idx::from_raw(2), Idx::from_raw(3))),
        Term(2, 3)
    );
    match Term(0, 5).decode() {
        TermRepr::Var(u) => assert_eq!(u, 4),
        _ => panic!("wrong variant"),
    }
    match Term(7, 0).decode() {
        TermRepr::Lam(e) => assert_eq!(e.raw, 7),
        _ => panic!("wrong variant"),
    }
}

#[test]
fn heap_is_redux_and_search() {
    let mut heap: Heap<Term, 64, 0> = Heap::new();
    let (_v0, id) = alloc_id(&mut heap);
    let v3 = heap.init(Term::encode(TermRepr::Var(3))).unwrap();
    let redex = heap.init(Term::encode(TermRepr::App(id, v3))).unwrap();
    let outer = heap.init(Term::encode(TermRepr::Lam(redex))).unwrap();
    assert!(heap.is_redux(redex));
    assert!(!heap.is_redux(id));
    assert_eq!(heap.head(outer).unwrap().raw, redex.raw);
    assert_eq!(heap.redux(outer).unwrap().raw, redex.raw);
    assert!(heap.head(id).is_none());
    assert!(heap.redux(v3).is_none());
}

#[test]
fn heap_shift_renumbers_free_variables() {
    // λ(1 0): shifting by 2 at level 0 renumbers only the free 1.
    let mut heap: Heap<Term, 64, 0> = Heap::new();
    let v1 = heap.init(Term::encode(TermRepr::Var(1))).unwrap();
    let v0 = heap.init(Term::encode(TermRepr::Var(0))).unwrap();
    let a = heap.init(Term::encode(TermRepr::App(v1, v0))).unwrap();
    let lamt = heap.init(Term::encode(TermRepr::Lam(a))).unwrap();
    heap.shift(lamt, 0, 2);
    assert_eq!(*heap.get(v1), Term::encode(TermRepr::Var(3)));
    assert_eq!(*heap.get(v0), Term::encode(TermRepr::Var(0)));
}

#[test]
fn heap_replace_closed_substitutes_and_shares() {
    // λ(1) with Var(0) replaced (var = 0, adjusted to 1 under the binder)
    // by the identity: occurrences share the identity's handle.
    let mut heap: Heap<Term, 64, 0> = Heap::new();
    let (_b, id) = alloc_id(&mut heap);
    let v1 = heap.init(Term::encode(TermRepr::Var(1))).unwrap();
    let free = heap.init(Term::encode(TermRepr::Lam(v1))).unwrap();
    let out = heap.replace_closed(free, 0, id).unwrap();
    match heap.get(out).decode() {
        TermRepr::Lam(body) => assert_eq!(body.raw, id.raw),
        _ => panic!("result is not a lambda"),
    }
}

#[test]
fn heap_beta_reduces_identity_application() {
    // (λ0) 5 reduces to 5.
    let mut heap: Heap<Term, 64, 0> = Heap::new();
    let (_b, id) = alloc_id(&mut heap);
    let v5 = heap.init(Term::encode(TermRepr::Var(5))).unwrap();
    let redex = heap.init(Term::encode(TermRepr::App(id, v5))).unwrap();
    let out = heap.beta(redex).unwrap();
    assert_eq!(*heap.get(out), Term::encode(TermRepr::Var(5)));
    // A non-redex comes back unchanged as its own handle.
    let same = heap.beta(v5).unwrap();
    assert_eq!(same.raw, v5.raw);
}

#[test]
fn heap_replace_shifts_open_argument() {
    // Substituting the open term `0` for the variable of λ(1) copies it
    // shifted by the one lambda crossed: λ(1) stays λ(1).
    let mut heap: Heap<Term, 64, 0> = Heap::new();
    let arg = heap.init(Term::encode(TermRepr::Var(0))).unwrap();
    let v1 = heap.init(Term::encode(TermRepr::Var(1))).unwrap();
    let lam1 = heap.init(Term::encode(TermRepr::Lam(v1))).unwrap();
    let out = heap.replace(lam1, 0, arg, 0).unwrap();
    match heap.get(out).decode() {
        TermRepr::Lam(body) => match heap.get(body).decode() {
            TermRepr::Var(u) => assert_eq!(u, 1),
            _ => panic!("body is not a variable"),
        },
        _ => panic!("result is not a lambda"),
    }
}

#[test]
fn heap_allocation_fails_when_full() {
    let mut heap: Heap<Term, 4, 0> = Heap::new();
    // Slots 1..=3 are free (slot 0 is reserved).
    assert!(heap.init(Term(0, 1)).is_some());
    assert!(heap.init(Term(0, 2)).is_some());
    assert!(heap.init(Term(0, 3)).is_some());
    assert!(heap.init(Term(0, 4)).is_none());
}
