//! The paged node store: a fixed-capacity, index-addressable heap of
//! nodes behind 16-bit handles, organised into a set of optionally
//! present generation-1 pages (long-lived content) and one generation-2
//! page in which new nodes are allocated.

use vstd::prelude::*;
use vstd::arithmetic::div_mod::lemma_fundamental_div_mod_converse;
use core::marker::PhantomData;

verus! {

/// The width of a heap handle.
pub type U = u16;

/// An opaque 16-bit handle into a [`Heap`]. Value 0 is the null sentinel
/// meaning "no node"; valid handles are strictly positive.
#[derive(Debug)]
pub struct Idx<T> {
    pub raw: U,
    pub _phantom: PhantomData<T>,
}

impl<T> Idx<T> {
    /// The handle with the given raw value.
    pub fn from_raw(value: U) -> (r: Idx<T>)
        ensures
            r.raw == value,
    {
        Idx { raw: value, _phantom: PhantomData }
    }
}

impl<T> Clone for Idx<T> {
    fn clone(&self) -> (r: Self)
        ensures
            r.raw == self.raw,
    {
        Idx { raw: self.raw, _phantom: PhantomData }
    }
}

impl<T> Copy for Idx<T> {}

impl<T> From<U> for Idx<T> {
    fn from(value: U) -> (r: Idx<T>) {
        Idx { raw: value, _phantom: PhantomData }
    }
}

impl<T> vstd::std_specs::convert::FromSpecImpl<U> for Idx<T> {
    open spec fn obeys_from_spec() -> bool {
        true
    }

    open spec fn from_spec(value: U) -> Idx<T> {
        Idx { raw: value, _phantom: PhantomData }
    }
}

/// An object stored in a heap can name the handles it holds, so that a
/// collection or promotion pass can trace from roots.
pub trait Object where Self: Sized {
    /// The handles held by this node.
    fn get_refs(&self) -> Vec<Idx<Self>>;
}

/// A heap of `PAGESIZE`-node pages: `G1PAGES` optionally present
/// generation-1 pages, then one generation-2 page where allocation
/// happens. The address of handle `i` is page `i / PAGESIZE`, offset
/// `i % PAGESIZE`; the generation-2 page is page number `G1PAGES`.
pub struct Heap<T, const PAGESIZE: usize, const G1PAGES: usize> {
    g2_ptr: usize,
    page_ptr: usize,
    g1_pages: Vec<Option<Vec<T>>>,
    g2_page: Vec<T>,
}

impl<T, const PAGESIZE: usize, const G1PAGES: usize> Heap<T, PAGESIZE, G1PAGES> {
    /// The structural invariant: the page table has its fixed shape, the
    /// whole address space fits 16-bit handles, and the allocation
    /// pointer stays within the generation-2 page.
    pub closed spec fn wf(self) -> bool {
        &&& self.g1_pages@.len() == G1PAGES
        &&& forall|p: int|
            0 <= p < G1PAGES ==> (#[trigger] self.g1_pages@[p] matches Some(page)
                ==> page@.len() == PAGESIZE)
        &&& self.g2_page@.len() == PAGESIZE
        &&& 1 <= self.g2_ptr <= PAGESIZE
        &&& PAGESIZE >= 1
        &&& (G1PAGES + 1) * PAGESIZE <= 65536
    }

    /// First handle of the generation-2 page.
    pub closed spec fn g2_base(self) -> int {
        G1PAGES * PAGESIZE
    }

    /// The next handle that allocation will hand out.
    pub closed spec fn g2_next(self) -> int {
        self.g2_base() + self.g2_ptr
    }

    /// A handle that dereferencing accepts: nonzero, and addressing a
    /// present page (any offset of the generation-2 page included).
    pub closed spec fn readable(self, i: int) -> bool {
        &&& 0 < i < (G1PAGES + 1) * PAGESIZE
        &&& (i / (PAGESIZE as int) < G1PAGES ==> self.g1_pages@[i / (PAGESIZE as int)]
            is Some)
    }

    /// A handle that allocation has handed out (or the reserved slot 0 of
    /// the generation-2 page): readable, and below the allocation pointer
    /// when in generation 2.
    pub closed spec fn live(self, i: int) -> bool {
        &&& self.readable(i)
        &&& (i / (PAGESIZE as int) == G1PAGES ==> i % (PAGESIZE as int) < self.g2_ptr)
    }

    /// The node behind a readable handle.
    pub closed spec fn node(self, i: int) -> T {
        let page = i / (PAGESIZE as int);
        let offset = i % (PAGESIZE as int);
        if page < G1PAGES {
            self.g1_pages@[page]->Some_0@[offset]
        } else {
            self.g2_page@[offset]
        }
    }

    /// Live handles are readable.
    pub proof fn lemma_live_readable(self, i: int)
        ensures
            self.live(i) ==> self.readable(i),
    {
    }

    /// Live handles are strictly positive.
    pub proof fn lemma_live_positive(self, i: int)
        ensures
            self.live(i) ==> 0 < i,
    {
    }

    /// Live handles are strictly positive and below the next handle that
    /// allocation will hand out.
    pub proof fn lemma_live_bounds(self, i: int)
        requires
            self.wf(),
        ensures
            self.live(i) ==> 0 < i < self.g2_next(),
    {
        if self.live(i) {
            Self::lemma_page_bounds(i);
            if i / (PAGESIZE as int) < G1PAGES {
                assert(i < (G1PAGES as int) * (PAGESIZE as int)) by (nonlinear_arith)
                    requires
                        i == (PAGESIZE as int) * (i / (PAGESIZE as int)) + i % (
                        PAGESIZE as int),
                        0 <= i % (PAGESIZE as int) < PAGESIZE,
                        i / (PAGESIZE as int) < G1PAGES,
                        i / (PAGESIZE as int) >= 0,
                        PAGESIZE >= 1,
                ;
                assert((G1PAGES as int) * (PAGESIZE as int) >= 0) by (nonlinear_arith);
            } else {
                assert(i == (PAGESIZE as int) * (G1PAGES as int) + i % (PAGESIZE as int));
                assert((PAGESIZE as int) * (G1PAGES as int) == (G1PAGES as int) * (
                PAGESIZE as int)) by (nonlinear_arith);
            }
        }
    }

    /// Page and offset of a handle within the address space.
    proof fn lemma_page_bounds(i: int)
        requires
            PAGESIZE >= 1,
            0 < i < (G1PAGES + 1) * PAGESIZE,
        ensures
            0 <= i / (PAGESIZE as int) <= G1PAGES,
            0 <= i % (PAGESIZE as int) < PAGESIZE,
            i == (PAGESIZE as int) * (i / (PAGESIZE as int)) + i % (PAGESIZE as int),
    {
        vstd::arithmetic::div_mod::lemma_fundamental_div_mod(i, PAGESIZE as int);
        vstd::arithmetic::div_mod::lemma_mod_bound(i, PAGESIZE as int);
        vstd::arithmetic::div_mod::lemma_div_pos_is_pos(i, PAGESIZE as int);
        assert(i / (PAGESIZE as int) <= G1PAGES) by (nonlinear_arith)
            requires
                i < (G1PAGES + 1) * PAGESIZE,
                i == (PAGESIZE as int) * (i / (PAGESIZE as int)) + i % (PAGESIZE as int),
                0 <= i % (PAGESIZE as int) < PAGESIZE,
                PAGESIZE >= 1,
        ;
    }

    /// Split a handle into page and offset.
    fn address(idx: Idx<T>) -> (r: (usize, usize))
        requires
            idx.raw != 0,
            PAGESIZE >= 1,
        ensures
            r.0 == idx.raw as int / (PAGESIZE as int),
            r.1 == idx.raw as int % (PAGESIZE as int),
    {
        (idx.raw as usize / PAGESIZE, idx.raw as usize % PAGESIZE)
    }

    /// The handle for an offset in the generation-2 page.
    fn unaddress_g2(offset: usize) -> (r: Idx<T>)
        requires
            offset != 0,
            offset < PAGESIZE,
            (G1PAGES + 1) * PAGESIZE <= 65536,
        ensures
            r.raw == G1PAGES * PAGESIZE + offset,
            r.raw as int / (PAGESIZE as int) == G1PAGES as int,
            r.raw as int % (PAGESIZE as int) == offset as int,
    {
        proof {
            assert((G1PAGES as int) * (PAGESIZE as int) + offset < (G1PAGES + 1) * (
            PAGESIZE as int)) by (nonlinear_arith)
                requires
                    offset < PAGESIZE,
            ;
            assert((G1PAGES + 1) * (PAGESIZE as int) == (G1PAGES as int) * (PAGESIZE as int)
                + PAGESIZE) by (nonlinear_arith);
            lemma_fundamental_div_mod_converse(
                G1PAGES as int * PAGESIZE as int + offset as int,
                PAGESIZE as int,
                G1PAGES as int,
                offset as int,
            );
        }
        Idx { raw: (G1PAGES * PAGESIZE + offset) as U, _phantom: PhantomData }
    }

    /// The handle for an offset in a generation-1 page.
    fn unaddress_g1(page: usize, offset: usize) -> (r: Idx<T>)
        requires
            offset != 0,
            offset < PAGESIZE,
            page < G1PAGES,
            (G1PAGES + 1) * PAGESIZE <= 65536,
        ensures
            r.raw == page * PAGESIZE + offset,
            r.raw as int / (PAGESIZE as int) == page as int,
            r.raw as int % (PAGESIZE as int) == offset as int,
    {
        proof {
            assert((page as int) * (PAGESIZE as int) + offset < (G1PAGES + 1) * (
            PAGESIZE as int)) by (nonlinear_arith)
                requires
                    offset < PAGESIZE,
                    page < G1PAGES,
            ;
            assert((G1PAGES + 1) * (PAGESIZE as int) <= 65536);
            lemma_fundamental_div_mod_converse(
                page as int * PAGESIZE as int + offset as int,
                PAGESIZE as int,
                page as int,
                offset as int,
            );
        }
        Idx { raw: (page * PAGESIZE + offset) as U, _phantom: PhantomData }
    }

    /// Read the node behind a handle. Dereferencing the null handle or an
    /// absent page is a contract breach, not a runtime error.
    pub fn get(&self, idx: Idx<T>) -> (r: &T)
        requires
            self.wf(),
            self.readable(idx.raw as int),
        ensures
            *r == self.node(idx.raw as int),
    {
        let (page, offset) = Self::address(idx);
        proof {
            Self::lemma_page_bounds(idx.raw as int);
        }
        if page == G1PAGES {
            &self.g2_page[offset]
        } else {
            match &self.g1_pages[page] {
                Some(p) => &p[offset],
                None => {
                    proof {
                        assert(false);
                    }
                    &self.g2_page[0]
                },
            }
        }
    }

    /// Write `value` behind a handle. (A handle does not lend out a
    /// mutable borrow here; the update is taken by value.)
    pub fn get_mut(&mut self, idx: Idx<T>, value: T)
        requires
            old(self).wf(),
            old(self).readable(idx.raw as int),
        ensures
            final(self).wf(),
            final(self).node(idx.raw as int) == value,
            forall|j: int| old(self).readable(j) == final(self).readable(j),
            forall|j: int| old(self).live(j) == final(self).live(j),
            forall|j: int|
                #[trigger] old(self).readable(j) && j != idx.raw ==> final(self).node(j)
                    == old(self).node(j),
            forall|j: int|
                #[trigger] old(self).live(j) && j != idx.raw ==> final(self).node(j) == old(
                    self,
                ).node(j),
            final(self).g2_next() == old(self).g2_next(),
            final(self).g2_base() == old(self).g2_base(),
    {
        let (page, offset) = Self::address(idx);
        proof {
            Self::lemma_page_bounds(idx.raw as int);
        }
        if page == G1PAGES {
            self.g2_page.set(offset, value);
        } else {
            let taken = self.g1_pages.remove(page);
            match taken {
                Some(mut p) => {
                    p.set(offset, value);
                    self.g1_pages.insert(page, Some(p));
                    proof {
                        assert(self.g1_pages@ =~= old(self).g1_pages@.update(
                            page as int,
                            self.g1_pages@[page as int],
                        ));
                    }
                },
                None => {
                    proof {
                        assert(false);
                    }
                    self.g1_pages.insert(page, None);
                },
            }
        }
        proof {
            self.lemma_addressing(idx.raw as int);
            assert forall|j: int|
                #[trigger] old(self).readable(j) && j != idx.raw implies final(self).node(j)
                == old(self).node(j) by {
                Self::lemma_page_bounds(j);
            }
            assert forall|j: int|
                #[trigger] old(self).live(j) && j != idx.raw implies final(self).node(j)
                == old(self).node(j) by {
                old(self).lemma_live_readable(j);
                Self::lemma_page_bounds(j);
            }
            assert forall|j: int| old(self).readable(j) == final(self).readable(j) by {}
        }
    }

    /// Two readable handles with the same page and offset are equal.
    proof fn lemma_addressing(self, i: int)
        requires
            PAGESIZE >= 1,
        ensures
            forall|j: int|
                0 < j && 0 < i && j != i && #[trigger] (j / (PAGESIZE as int)) == i / (
                PAGESIZE as int) ==> j % (PAGESIZE as int) != i % (PAGESIZE as int),
    {
        assert forall|j: int|
            0 < j && 0 < i && j != i && #[trigger] (j / (PAGESIZE as int)) == i / (
            PAGESIZE as int) implies j % (PAGESIZE as int) != i % (PAGESIZE as int) by {
            vstd::arithmetic::div_mod::lemma_fundamental_div_mod(j, PAGESIZE as int);
            vstd::arithmetic::div_mod::lemma_fundamental_div_mod(i, PAGESIZE as int);
        }
    }

    /// Allocate the next generation-2 slot unconditionally; the caller
    /// has checked the high-water mark. Returned handles are strictly
    /// increasing and never 0.
    pub fn alloc_g2(&mut self) -> (r: Idx<T>)
        requires
            old(self).wf(),
            old(self).g2_next() < old(self).g2_base() + PAGESIZE,
        ensures
            final(self).wf(),
            r.raw == old(self).g2_next(),
            final(self).g2_next() == old(self).g2_next() + 1,
            final(self).g2_base() == old(self).g2_base(),
            forall|j: int| old(self).readable(j) == final(self).readable(j),
            forall|j: int| #[trigger] old(self).readable(j) ==> final(self).node(j) == old(
                self,
            ).node(j),
            forall|j: int| #[trigger] old(self).live(j) ==> final(self).live(j),
            final(self).live(r.raw as int),
            forall|j: int| #[trigger] final(self).live(j) ==> old(self).live(j) || j == r.raw,
    {
        let newaddr = self.g2_ptr;
        self.g2_ptr = self.g2_ptr + 1;
        let r = Self::unaddress_g2(newaddr);
        proof {
            assert((G1PAGES as int) * (PAGESIZE as int) >= 0) by (nonlinear_arith);
            assert((G1PAGES as int) * (PAGESIZE as int) + PAGESIZE == (G1PAGES + 1) * (
            PAGESIZE as int)) by (nonlinear_arith);
            assert(final(self).readable(r.raw as int));
            assert(final(self).live(r.raw as int));
            assert forall|j: int| #[trigger] final(self).live(j) implies old(self).live(j)
                || j == r.raw by {
                Self::lemma_page_bounds(j);
            }
        }
        r
    }

    /// Whether the generation-2 page is full, so that `alloc_g2` may not
    /// be called.
    pub fn full(&self) -> (b: bool)
        requires
            self.wf(),
        ensures
            b == (self.g2_next() == self.g2_base() + PAGESIZE),
    {
        self.g2_ptr >= PAGESIZE
    }

    /// Allocate a slot and write `value` into it: nothing when the
    /// generation-2 page is full, else the fresh handle, with all other
    /// nodes unchanged.
    pub fn init(&mut self, value: T) -> (r: Option<Idx<T>>)
        requires
            old(self).wf(),
        ensures
            final(self).wf(),
            final(self).g2_base() == old(self).g2_base(),
            forall|j: int| old(self).readable(j) == final(self).readable(j),
            forall|j: int| #[trigger] old(self).live(j) ==> final(self).live(j),
            forall|j: int|
                #[trigger] old(self).readable(j) && old(self).live(j) ==> final(self).node(j)
                    == old(self).node(j),
            forall|j: int| #[trigger] old(self).live(j) ==> final(self).node(j) == old(
                self,
            ).node(j),
            match r {
                Some(idx) => {
                    &&& idx.raw == old(self).g2_next()
                    &&& final(self).g2_next() == old(self).g2_next() + 1
                    &&& final(self).live(idx.raw as int)
                    &&& final(self).node(idx.raw as int) == value
                    &&& (forall|j: int|
                        #[trigger] final(self).live(j) ==> old(self).live(j) || j == idx.raw)
                },
                None => {
                    &&& old(self).g2_next() == old(self).g2_base() + PAGESIZE
                    &&& final(self).g2_next() == old(self).g2_next()
                    &&& (forall|j: int| #[trigger] final(self).live(j) ==> old(self).live(j))
                },
            },
    {
        if self.full() {
            None
        } else {
            let idx = self.alloc_g2();
            self.get_mut(idx, value);
            proof {
                assert forall|j: int|
                    #[trigger] old(self).readable(j) && old(self).live(j) implies final(self).node(j) == old(self).node(j) by {
                    Self::lemma_page_bounds(j);
                    assert((G1PAGES as int) * (PAGESIZE as int) == (PAGESIZE as int) * (
                    G1PAGES as int)) by (nonlinear_arith);
                    lemma_fundamental_div_mod_converse(
                        idx.raw as int,
                        PAGESIZE as int,
                        G1PAGES as int,
                        idx.raw as int - (G1PAGES as int) * (PAGESIZE as int),
                    );
                }
    assert forall|j: int| #[trigger] old(self).live(j) implies final(self).node(j)
                    == old(self).node(j) by {
                    old(self).lemma_live_readable(j);
                }
            }
            Some(idx)
        }
    }

    /// Allocate a slot and fill it with the closure's result: as `init`,
    /// with the node satisfying the closure's postcondition.
    pub fn init_with<F: FnOnce() -> T>(&mut self, init: F) -> (r: Option<Idx<T>>)
        requires
            old(self).wf(),
            init.requires(()),
        ensures
            final(self).wf(),
            final(self).g2_base() == old(self).g2_base(),
            forall|j: int| old(self).readable(j) == final(self).readable(j),
            forall|j: int| #[trigger] old(self).live(j) ==> final(self).live(j),
            forall|j: int|
                #[trigger] old(self).readable(j) && old(self).live(j) ==> final(self).node(j)
                    == old(self).node(j),
            forall|j: int| #[trigger] old(self).live(j) ==> final(self).node(j) == old(
                self,
            ).node(j),
            match r {
                Some(idx) => {
                    &&& idx.raw == old(self).g2_next()
                    &&& final(self).g2_next() == old(self).g2_next() + 1
                    &&& final(self).live(idx.raw as int)
                    &&& init.ensures((), final(self).node(idx.raw as int))
                    &&& (forall|j: int|
                        #[trigger] final(self).live(j) ==> old(self).live(j) || j == idx.raw)
                },
                None => {
                    &&& old(self).g2_next() == old(self).g2_base() + PAGESIZE
                    &&& final(self).g2_next() == old(self).g2_next()
                    &&& (forall|j: int| #[trigger] final(self).live(j) ==> old(self).live(j))
                },
            },
    {
        if self.full() {
            None
        } else {
            let idx = self.alloc_g2();
            self.get_mut(idx, init());
            proof {
                assert forall|j: int|
                    #[trigger] old(self).readable(j) && old(self).live(j) implies final(self).node(j) == old(self).node(j) by {
                    Self::lemma_page_bounds(j);
                    assert((G1PAGES as int) * (PAGESIZE as int) == (PAGESIZE as int) * (
                    G1PAGES as int)) by (nonlinear_arith);
                    lemma_fundamental_div_mod_converse(
                        idx.raw as int,
                        PAGESIZE as int,
                        G1PAGES as int,
                        idx.raw as int - (G1PAGES as int) * (PAGESIZE as int),
                    );
                }
    assert forall|j: int| #[trigger] old(self).live(j) implies final(self).node(j)
                    == old(self).node(j) by {
                    old(self).lemma_live_readable(j);
                }
            }
            Some(idx)
        }
    }
}

impl<T: Default, const PAGESIZE: usize, const G1PAGES: usize> Heap<T, PAGESIZE, G1PAGES> {
    /// An empty heap: no generation-1 page present, and every
    /// generation-2 slot holding the default node, so that slot 0 (never
    /// allocated) reads back as the default if ever reached by mistake.
    pub fn new() -> (h: Heap<T, PAGESIZE, G1PAGES>)
        requires
            PAGESIZE >= 1,
            (G1PAGES + 1) * PAGESIZE <= 65536,
        ensures
            h.wf(),
            h.g2_next() == h.g2_base() + 1,
            forall|j: int| #[trigger] h.readable(j) ==> T::default.ensures((), h.node(j)),
            forall|j: int| h.live(j) ==> j == h.g2_base() || j == 0,
    {
        let mut g1_pages: Vec<Option<Vec<T>>> = Vec::new();
        let mut p: usize = 0;
        while p < G1PAGES
            invariant
                g1_pages@.len() == p,
                p <= G1PAGES,
                forall|q: int| 0 <= q < p ==> g1_pages@[q] is None,
            decreases G1PAGES - p,
        {
            g1_pages.push(None);
            p = p + 1;
        }
        let mut g2_page: Vec<T> = Vec::new();
        let mut o: usize = 0;
        while o < PAGESIZE
            invariant
                g2_page@.len() == o,
                o <= PAGESIZE,
                forall|q: int| 0 <= q < o ==> T::default.ensures((), #[trigger] g2_page@[q]),
            decreases PAGESIZE - o,
        {
            g2_page.push(T::default());
            o = o + 1;
        }
        let h = Heap { g2_ptr: 1, page_ptr: 0, g1_pages, g2_page };
        proof {
            assert forall|j: int| #[trigger] h.readable(j) implies T::default.ensures(
                (),
                h.node(j),
            ) by {
                vstd::arithmetic::div_mod::lemma_mod_bound(j, PAGESIZE as int);
                vstd::arithmetic::div_mod::lemma_div_pos_is_pos(j, PAGESIZE as int);
            }
            assert forall|j: int| h.live(j) implies j == h.g2_base() || j == 0 by {
                if h.live(j) {
                    Self::lemma_page_bounds(j);
                    assert((G1PAGES as int) * (PAGESIZE as int) == (PAGESIZE as int) * (
                    G1PAGES as int)) by (nonlinear_arith);
                }
            }
        }
        h
    }
}

} // verus!
