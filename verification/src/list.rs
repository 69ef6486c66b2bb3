//! The persistent list and its operations.

use std::rc::Rc;
use vstd::prelude::*;

verus! {

/// An immutable list as in functional languages: either empty or a shared
/// handle to a [`Cons`] cell.  Update operations return a new list; existing
/// lists are never changed, and unrelated lists may share trailing cells.
#[derive(Debug)]
pub struct List<T>(Option<Rc<Cons<T>>>);

/// One cell of a [`List`]: an element and the remainder of the list.
#[derive(Debug)]
pub struct Cons<T> {
    elem: T,
    next: List<T>,
}

impl<T> List<T> {
    spec fn elems(&self) -> Seq<T>
        decreases self,
    {
        match self.0 {
            None => Seq::empty(),
            Some(rc) => seq![rc.elem] + rc.next.elems(),
        }
    }
}

impl<T> View for List<T> {
    type V = Seq<T>;

    closed spec fn view(&self) -> Seq<T> {
        self.elems()
    }
}

impl<T> View for Cons<T> {
    type V = Seq<T>;

    closed spec fn view(&self) -> Seq<T> {
        seq![self.elem] + self.next.elems()
    }
}

impl<T> Cons<T> {
    /// A cell holding `elem` followed by the list `next`.
    pub fn new(elem: T, next: List<T>) -> (r: Self)
        ensures
            r@ == seq![elem] + next@,
    {
        Cons { elem, next }
    }

    /// A cell holding `elem` at the end of a list.
    pub fn singleton(elem: T) -> (r: Self)
        ensures
            r@ == seq![elem],
    {
        let r = Cons::new(elem, List::empty());
        proof {
            assert(r@ =~= seq![elem]);
        }
        r
    }
}

impl<T> Clone for List<T> {
    /// Bumps the reference count of the head cell; no cell is copied.
    fn clone(&self) -> (r: Self)
        ensures
            r == *self,
    {
        match &self.0 {
            None => List(None),
            Some(rc) => List(Some(rc.clone())),
        }
    }
}

impl<T> List<T> {
    /// The list with no elements.
    pub fn empty() -> (r: Self)
        ensures
            r@ == Seq::<T>::empty(),
    {
        List(None)
    }

    /// The head cell, or `None` when the list is empty.
    pub fn try_as_ref(&self) -> (r: Option<&Rc<Cons<T>>>)
        ensures
            match r {
                None => self@.len() == 0,
                Some(rc) => self@.len() > 0 && rc@ == self@,
            },
    {
        match &self.0 {
            None => None,
            Some(rc) => {
                proof {
                    assert(rc@.len() > 0);
                }
                Some(rc)
            },
        }
    }

    /// The head cell, or `None` when the list is empty: `try_as_ref` under
    /// its older name.
    pub fn as_ref(&self) -> (r: Option<&Rc<Cons<T>>>)
        ensures
            match r {
                None => self@.len() == 0,
                Some(rc) => self@.len() > 0 && rc@ == self@,
            },
    {
        self.try_as_ref()
    }

    /// The first element, or `None` when the list is empty.
    pub fn head(&self) -> (r: Option<&T>)
        ensures
            match r {
                None => self@.len() == 0,
                Some(e) => self@.len() > 0 && *e == self@[0],
            },
    {
        match &self.0 {
            None => None,
            Some(rc) => Some(&rc.elem),
        }
    }

    /// The remainder after the first element, or `None` when the list is
    /// empty.
    pub fn tail(&self) -> (r: Option<&List<T>>)
        ensures
            match r {
                None => self@.len() == 0,
                Some(t) => self@.len() > 0 && t@ == self@.skip(1),
            },
    {
        match &self.0 {
            None => None,
            Some(rc) => {
                proof {
                    assert(rc.next@ =~= self@.skip(1));
                }
                Some(&rc.next)
            },
        }
    }

    /// An owned handle to the remainder (a reference-count bump), or `None`
    /// when the list is empty.
    pub fn into_tail(&self) -> (r: Option<List<T>>)
        ensures
            match r {
                None => self@.len() == 0,
                Some(t) => self@.len() > 0 && t@ == self@.skip(1),
            },
    {
        match &self.0 {
            None => None,
            Some(rc) => {
                proof {
                    assert(rc.next@ =~= self@.skip(1));
                }
                Some(rc.next.clone())
            },
        }
    }

    /// A new list with `elem` prepended.  Does not consume `self`: the new
    /// list shares `self`'s cells as its tail.
    pub fn cons(&self, elem: T) -> (r: Self)
        ensures
            r@ == seq![elem] + self@,
    {
        List(Some(Rc::new(Cons::new(elem, self.clone()))))
    }

    /// A new list with `elem` prepended, taking ownership of `self` so no
    /// reference count is bumped.
    pub fn into_cons(self, elem: T) -> (r: Self)
        ensures
            r@ == seq![elem] + self@,
    {
        List(Some(Rc::new(Cons::new(elem, self))))
    }

    /// The one-element list holding `elem`.
    pub fn singleton(elem: T) -> (r: Self)
        ensures
            r@ == seq![elem],
    {
        List(Some(Rc::new(Cons::singleton(elem))))
    }

    /// List identity rather than structural equality: true exactly when both
    /// lists are empty or both are handles to the literal same head cell.
    /// Which allocation a handle refers to lies below the level of values, so
    /// for two non-empty lists only the consequences of an answer are stated:
    /// a `true` answer implies structural equality, never the converse.
    pub fn same(&self, other: &List<T>) -> (r: bool)
        ensures
            self@.len() == 0 && other@.len() == 0 ==> r,
            (self@.len() == 0) != (other@.len() == 0) ==> !r,
            r ==> self@ == other@,
    {
        match (self.try_as_ref(), other.try_as_ref()) {
            (Some(self_rc), Some(other_rc)) => {
                let r = crate::rc_utils::same_allocation(self_rc, other_rc);
                proof {
                    if r {
                        assert(self_rc@ == other_rc@);
                    }
                }
                r
            },
            (None, None) => true,
            (_, _) => false,
        }
    }

    /// A new list of `f` applied to every element, in order, by recursive
    /// descent: the results are prepended while the recursion unwinds, so the
    /// stack grows with the length of the list.  Intended as the readable
    /// reference algorithm; [`List::map`] computes the same thing
    /// iteratively.
    pub fn map_recursive<U, F: Fn(&T) -> U>(&self, f: F) -> (r: List<U>)
        requires
            forall|i: int| #![trigger self@[i]] 0 <= i < self@.len() ==> call_requires(f, (&self@[i],)),
        ensures
            r@.len() == self@.len(),
            forall|i: int|
                #![trigger self@[i]]
                0 <= i < self@.len() ==> call_ensures(f, (&self@[i],), #[trigger] r@[i]),
    {
        self.map_recursive_helper(&f)
    }

    /// Recursive worker for [`List::map_recursive`]; uses `into_cons` because
    /// nobody else sees the intermediate lists.
    fn map_recursive_helper<U, F: Fn(&T) -> U>(&self, f: &F) -> (r: List<U>)
        requires
            forall|i: int| #![trigger self@[i]] 0 <= i < self@.len() ==> call_requires(*f, (&self@[i],)),
        ensures
            r@.len() == self@.len(),
            forall|i: int|
                #![trigger self@[i]]
                0 <= i < self@.len() ==> call_ensures(*f, (&self@[i],), #[trigger] r@[i]),
        decreases self,
    {
        match &self.0 {
            None => List::empty(),
            Some(rc) => {
                proof {
                    assert(self@ =~= seq![rc.elem] + rc.next@);
                    assert(self@[0] == rc.elem);
                    assert(forall|i: int|
                        0 <= i < rc.next@.len() ==> #[trigger] rc.next@[i] == self@[i + 1]);
                }
                let rest = rc.next.map_recursive_helper(f);
                let r = rest.into_cons(f(&rc.elem));
                proof {
                    assert(forall|i: int|
                        1 <= i < self@.len() ==> #[trigger] r@[i] == rest@[i - 1]);
                }
                r
            },
        }
    }

    /// A new list of `f` applied to every element, in order, computed
    /// iteratively: the same contract as [`List::map_recursive`], but the
    /// auxiliary space on the call stack is bounded, independent of the
    /// length of the list.  One forward pass applies `f` once per element;
    /// one backward pass builds the result cells bottom-up, so every cell is
    /// fully constructed before it is shared.
    pub fn map<U, F: Fn(&T) -> U>(&self, f: F) -> (r: List<U>)
        requires
            forall|i: int| #![trigger self@[i]] 0 <= i < self@.len() ==> call_requires(f, (&self@[i],)),
        ensures
            r@.len() == self@.len(),
            forall|i: int|
                #![trigger self@[i]]
                0 <= i < self@.len() ==> call_ensures(f, (&self@[i],), #[trigger] r@[i]),
    {
        let mut vals: Vec<U> = Vec::new();
        let mut cur: &List<T> = self;
        loop
            invariant
                vals@.len() <= self@.len(),
                cur@ == self@.skip(vals@.len() as int),
                forall|i: int| #![trigger self@[i]] 0 <= i < self@.len() ==> call_requires(f, (&self@[i],)),
                forall|i: int| 0 <= i < vals@.len() ==> call_ensures(f, (&self@[i],), #[trigger] vals@[i]),
            ensures
                vals@.len() == self@.len(),
                forall|i: int| 0 <= i < vals@.len() ==> call_ensures(f, (&self@[i],), #[trigger] vals@[i]),
            decreases cur@.len(),
        {
            match &cur.0 {
                None => {
                    break ;
                },
                Some(rc) => {
                    let ghost k = vals@.len() as int;
                    proof {
                        assert(cur@ =~= seq![rc.elem] + rc.next@);
                        assert(cur@[0] == rc.elem);
                        assert(self@.skip(k)[0] == self@[k]);
                        assert(self@[k] == rc.elem);
                        assert(cur@.skip(1) =~= rc.next@);
                        assert(self@.skip(k).skip(1) =~= self@.skip(k + 1));
                        assert(rc.next@ =~= self@.skip(k + 1));
                    }
                    vals.push(f(&rc.elem));
                    cur = &rc.next;
                },
            }
        }
        let ghost all: Seq<U> = vals@;
        let mut out: List<U> = List::empty();
        loop
            invariant
                vals@.len() <= all.len(),
                vals@ == all.take(vals@.len() as int),
                out@ == all.skip(vals@.len() as int),
            ensures
                out@ == all,
            decreases vals@.len(),
        {
            if vals.len() == 0 {
                proof {
                    assert(out@ =~= all);
                }
                break ;
            }
            let ghost k = vals@.len() as int;
            let v = vals.pop().unwrap();
            proof {
                assert(v == all[k - 1]);
                assert(vals@ =~= all.take(k - 1));
            }
            out = out.into_cons(v);
            proof {
                assert(out@ =~= all.skip(k - 1));
            }
        }
        out
    }
}

/// Law: a list is determined by its sequence of elements.  Two lists with
/// the same elements in the same order are equal as values, however each of
/// them shares or does not share its cells.
pub proof fn lemma_view_injective<T>(a: &List<T>, b: &List<T>)
    requires
        a@ == b@,
    ensures
        *a == *b,
    decreases a,
{
    match (&a.0, &b.0) {
        (None, None) => {
        },
        (Some(ra), Some(rb)) => {
            assert(a@ =~= seq![ra.elem] + ra.next@);
            assert(b@ =~= seq![rb.elem] + rb.next@);
            assert(ra.elem == a@[0]);
            assert(rb.elem == b@[0]);
            assert(ra.next@ =~= a@.skip(1));
            assert(rb.next@ =~= b@.skip(1));
            lemma_view_injective(&ra.next, &rb.next);
        },
        (None, Some(rb)) => {
            assert(b@ =~= seq![rb.elem] + rb.next@);
        },
        (Some(ra), None) => {
            assert(a@ =~= seq![ra.elem] + ra.next@);
        },
    }
}

/// Law: the recursive and the iterative mapping agree.  [`List::map`] and
/// [`List::map_recursive`] promise the same relation between a list's
/// elements and the result's; whenever the postcondition of `f` determines
/// its result from its argument, that shared relation pins both results down
/// to one and the same list.
pub proof fn lemma_map_agrees<T, U, F: Fn(&T) -> U>(f: F, l: List<T>, r1: List<U>, r2: List<U>)
    requires
        r1@.len() == l@.len(),
        r2@.len() == l@.len(),
        forall|i: int| 0 <= i < l@.len() ==> call_ensures(f, (&l@[i],), #[trigger] r1@[i]),
        forall|i: int| 0 <= i < l@.len() ==> call_ensures(f, (&l@[i],), #[trigger] r2@[i]),
        forall|x: &T, y1: U, y2: U|
            call_ensures(f, (x,), y1) && call_ensures(f, (x,), y2) ==> y1 == y2,
    ensures
        r1 == r2,
{
    assert forall|i: int| 0 <= i < l@.len() implies r1@[i] == r2@[i] by {
        assert(call_ensures(f, (&l@[i],), r1@[i]));
        assert(call_ensures(f, (&l@[i],), r2@[i]));
    }
    assert(r1@ =~= r2@);
    lemma_view_injective(&r1, &r2);
}

/// Recursive worker for `List`'s structural equality: element-wise
/// comparison through `T`'s own `==`, independent of sharing.
fn eq_lists<T: PartialEq>(a: &List<T>, b: &List<T>) -> (r: bool)
    ensures
        vstd::laws_eq::obeys_concrete_eq::<T>() ==> (r <==> a@ == b@),
    decreases a,
{
    match (&a.0, &b.0) {
        (None, None) => true,
        (Some(ra), Some(rb)) => {
            proof {
                assert(a@ =~= seq![ra.elem] + ra.next@);
                assert(b@ =~= seq![rb.elem] + rb.next@);
                assert(a@[0] == ra.elem);
                assert(b@[0] == rb.elem);
                assert(a@.skip(1) =~= ra.next@);
                assert(b@.skip(1) =~= rb.next@);
            }
            let heads_eq = ra.elem == rb.elem;
            proof {
                if vstd::laws_eq::obeys_concrete_eq::<T>() {
                    reveal(vstd::laws_eq::obeys_concrete_eq);
                    assert(heads_eq <==> ra.elem == rb.elem);
                }
            }
            if heads_eq {
                eq_lists(&ra.next, &rb.next)
            } else {
                false
            }
        },
        (None, Some(rb)) => {
            proof {
                assert(b@ =~= seq![rb.elem] + rb.next@);
            }
            false
        },
        (Some(ra), None) => {
            proof {
                assert(a@ =~= seq![ra.elem] + ra.next@);
            }
            false
        },
    }
}

impl<T: PartialEq> PartialEq for List<T> {
    /// Structural equality: same length and pairwise-equal elements in the
    /// same order, regardless of how the two lists share their cells.
    fn eq(&self, other: &Self) -> (r: bool) {
        eq_lists(self, other)
    }
}

impl<T: PartialEq> vstd::std_specs::cmp::PartialEqSpecImpl for List<T> {
    open spec fn obeys_eq_spec() -> bool {
        vstd::laws_eq::obeys_concrete_eq::<T>()
    }

    open spec fn eq_spec(&self, other: &Self) -> bool {
        self@ == other@
    }
}

impl<T: Clone> List<T> {
    /// A new list holding a copy of `self`'s elements followed by `other`'s.
    ///
    /// Every cell of `other` is shared (a single reference-count bump), never
    /// copied: when `self` is empty the result is `other` itself.  Every cell
    /// of `self` is freshly copied, since `self` is not consumed and must
    /// stay valid; its elements go through `T::clone`, so the result holds
    /// clones of them.  When `T::clone` returns its argument unchanged, the
    /// result's elements are exactly the concatenation of the two lists'.
    pub fn append(&self, other: &List<T>) -> (r: List<T>)
        ensures
            r@.len() == self@.len() + other@.len(),
            forall|i: int|
                #![trigger self@[i]]
                0 <= i < self@.len() ==> cloned::<T>(self@[i], #[trigger] r@[i]),
            r@.skip(self@.len() as int) == other@,
            self@.len() == 0 ==> r == *other,
            (forall|x: T, y: T| cloned::<T>(x, y) ==> y == x) ==> r@ == self@ + other@,
        decreases self,
    {
        match &self.0 {
            None => {
                let r = match &other.0 {
                    None => List::empty(),
                    Some(rc) => List(Some(rc.clone())),
                };
                proof {
                    assert(r == *other);
                    assert(r@.skip(0) =~= other@);
                }
                r
            },
            Some(rc) => {
                proof {
                    assert(self@ =~= seq![rc.elem] + rc.next@);
                    assert(self@[0] == rc.elem);
                    assert(forall|i: int|
                        0 <= i < rc.next@.len() ==> #[trigger] rc.next@[i] == self@[i + 1]);
                }
                let rest = rc.next.append(other);
                let r = rest.into_cons(rc.elem.clone());
                proof {
                    let n = self@.len() as int;
                    assert(forall|i: int| 1 <= i < r@.len() ==> #[trigger] r@[i] == rest@[i - 1]);
                    assert(r@.skip(n) =~= rest@.skip(n - 1));
                    if forall|x: T, y: T| cloned::<T>(x, y) ==> y == x {
                        assert forall|i: int| 0 <= i < r@.len() implies r@[i] == (self@
                            + other@)[i] by {
                            if i < n {
                                assert(cloned::<T>(self@[i], r@[i]));
                            } else {
                                assert(r@.skip(n)[i - n] == r@[i]);
                            }
                        }
                        assert(r@ =~= self@ + other@);
                    }
                }
                r
            },
        }
    }
}

} // verus!
