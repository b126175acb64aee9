use vstd::prelude::*;
use vstd::std_specs::cmp::PartialEqSpec;
use vstd::std_specs::cmp::PartialOrdSpec;
use vstd::laws_eq::obeys_concrete_eq;
use vstd::laws_cmp::obeys_cmp_partial_ord;
use core::cmp::Ordering;

verus! {

/// An immutable singly-linked list whose nodes borrow their successor, so
/// that lists built on one suffix share it.
///
/// `Tail` is declared first so that the derived `Ord` puts the empty list
/// before every other list, which makes it the lexicographic order that
/// `partial_cmp` computes.
#[derive(Debug, Clone, Copy, Eq, Ord)]
pub enum LinkedList<'a, T> {
    Tail,
    Node { value: T, next: &'a LinkedList<'a, T> },
}

impl<'a, T> Default for LinkedList<'a, T> {
    fn default() -> (r: Self)
        ensures
            r is Tail,
            r@ == Seq::<T>::empty(),
    {
        LinkedList::Tail
    }
}

impl<'a, T> LinkedList<'a, T> {
    /// The elements of the list, front first.
    pub open spec fn view(&self) -> Seq<T>
        decreases self,
    {
        match self {
            LinkedList::Tail => Seq::empty(),
            LinkedList::Node { value, next } => seq![*value] + next.view(),
        }
    }

    /// The empty list.
    pub fn new() -> (r: Self)
        ensures
            r is Tail,
            r@ == Seq::<T>::empty(),
    {
        Self::default()
    }

    /// A new list with `value` in front of this one, which it borrows.
    pub fn prepend(&'a self, value: T) -> (r: Self)
        ensures
            r == (LinkedList::Node { value, next: self }),
            r@ == seq![value] + self@,
    {
        LinkedList::Node { value, next: self }
    }

    /// A fresh cursor at the front of the list.
    pub fn iter(&self) -> (r: ListIter<'_, T>)
        ensures
            r@ == self@,
    {
        ListIter(self)
    }

    /// The number of elements.
    pub fn len(&self) -> (r: usize)
        requires
            self@.len() <= usize::MAX,
        ensures
            r == self@.len(),
    {
        let mut len: usize = 0;
        let mut it = self.iter();
        loop
            invariant
                len + it@.len() == self@.len(),
                self@.len() <= usize::MAX,
            ensures
                len == self@.len(),
            decreases it@.len(),
        {
            match it.next() {
                Some(_) => len += 1,
                None => break,
            }
        }
        len
    }

    /// Whether the list has no element.
    pub fn is_empty(&self) -> (r: bool)
        ensures
            r == (self@.len() == 0),
            r == (self is Tail),
    {
        matches!(self, LinkedList::Tail)
    }

    /// Whether some element compares equal to `value`; stops at the first
    /// match.
    pub fn contains(&self, value: &T) -> (r: bool)
        where
            T: PartialEq,
        ensures
            T::obeys_eq_spec() ==> (r <==> exists|i: int|
                0 <= i < self@.len() && #[trigger] self@[i].eq_spec(value)),
            obeys_concrete_eq::<T>() ==> (r <==> self@.contains(*value)),
    {
        let mut it = self.iter();
        loop
            invariant
                it@.len() <= self@.len(),
                it@ == self@.skip(self@.len() - it@.len()),
                T::obeys_eq_spec() ==> forall|i: int|
                    0 <= i < self@.len() - it@.len() ==> !#[trigger] self@[i].eq_spec(value),
            decreases it@.len(),
        {
            let ghost k = self@.len() - it@.len();
            match it.next() {
                Some(item) => {
                    assert(self@.skip(k).drop_first() =~= self@.skip(k + 1));
                    if item.eq(value) {
                        proof {
                            reveal(obeys_concrete_eq);
                            if obeys_concrete_eq::<T>() {
                                assert(self@[k] == *value);
                            }
                        }
                        return true;
                    }
                },
                None => {
                    proof {
                        reveal(obeys_concrete_eq);
                        if obeys_concrete_eq::<T>() {
                            assert forall|i: int| 0 <= i < self@.len() implies self@[i] != *value by {
                                assert(!self@[i].eq_spec(value));
                            }
                        }
                    }
                    return false;
                },
            }
        }
    }

    /// The first element.
    pub fn front(&self) -> (r: Option<&T>)
        ensures
            self@.len() == 0 ==> r is None,
            self@.len() > 0 ==> r == Some(&self@[0]),
    {
        match self {
            LinkedList::Node { value, .. } => Some(value),
            LinkedList::Tail => None,
        }
    }

    /// The list without its first element.
    pub fn tail(&self) -> (r: Option<&LinkedList<'a, T>>)
        ensures
            r is None <==> self@.len() == 0,
            r matches Some(t) ==> t@ == self@.drop_first(),
            self matches LinkedList::Node { next, .. } ==> r == Some(*next),
    {
        match self {
            LinkedList::Node { next, .. } => Some(next),
            LinkedList::Tail => None,
        }
    }

    /// The element at index `n`, front first.
    pub fn get(&self, n: usize) -> (r: Option<&T>)
        ensures
            n < self@.len() ==> r == Some(&self@[n as int]),
            n >= self@.len() ==> r is None,
    {
        match self.skip(n) {
            Some(s) => s.front(),
            None => None,
        }
    }

    /// The sublist reached by advancing `n` nodes; none when the list has
    /// `n` elements or fewer.
    pub fn skip(&self, n: usize) -> (r: Option<&LinkedList<'a, T>>)
        ensures
            r is Some <==> n < self@.len(),
            r matches Some(s) ==> s@ == self@.skip(n as int),
        decreases n,
    {
        match self {
            LinkedList::Node { next, .. } => {
                if n == 0 {
                    Some(self)
                } else {
                    next.skip(n - 1)
                }
            },
            LinkedList::Tail => None,
        }
    }

    /// The second element when there are at least two, else the first one.
    pub fn back(&self) -> (r: Option<&T>)
        ensures
            self@.len() == 0 ==> r is None,
            self@.len() == 1 ==> r == Some(&self@[0]),
            self@.len() >= 2 ==> r == Some(&self@[1]),
    {
        match self {
            LinkedList::Node { value, next } => {
                proof {
                    reveal_with_fuel(LinkedList::view, 2);
                }
                if let LinkedList::Node { value, .. } = next {
                    Some(value)
                } else {
                    Some(value)
                }
            },
            LinkedList::Tail => None,
        }
    }
}

/// Two element sequences of the same length whose elements compare equal
/// position by position.
pub open spec fn elementwise_eq<T: PartialEq>(a: Seq<T>, b: Seq<T>) -> bool {
    &&& a.len() == b.len()
    &&& forall|i: int| 0 <= i < a.len() ==> #[trigger] a[i].eq_spec(&b[i])
}

/// Lexicographic comparison: the first pair of elements that does not compare
/// equal decides; otherwise the shorter sequence comes first.
pub open spec fn lex_cmp<T: PartialOrd>(a: Seq<T>, b: Seq<T>) -> Option<Ordering>
    decreases a.len(),
{
    if a.len() == 0 {
        if b.len() == 0 {
            Some(Ordering::Equal)
        } else {
            Some(Ordering::Less)
        }
    } else if b.len() == 0 {
        Some(Ordering::Greater)
    } else {
        let c = a[0].partial_cmp_spec(&b[0]);
        if c == Some(Ordering::Equal) {
            lex_cmp(a.drop_first(), b.drop_first())
        } else {
            c
        }
    }
}

impl<'a, T: PartialEq> PartialEq for LinkedList<'a, T> {
    fn eq(&self, other: &Self) -> (r: bool) {
        let mut a = self.iter();
        let mut b = other.iter();
        let ghost mut k: int = 0;
        loop
            invariant
                0 <= k <= self@.len(),
                k <= other@.len(),
                a@ == self@.skip(k),
                b@ == other@.skip(k),
                T::obeys_eq_spec() ==> forall|i: int|
                    0 <= i < k ==> #[trigger] self@[i].eq_spec(&other@[i]),
            decreases a@.len(),
        {
            match (a.next(), b.next()) {
                (Some(x), Some(y)) => {
                    if !x.eq(y) {
                        return false;
                    }
                    proof {
                        assert(self@.skip(k).drop_first() =~= self@.skip(k + 1));
                        assert(other@.skip(k).drop_first() =~= other@.skip(k + 1));
                        k = k + 1;
                    }
                },
                (None, None) => {
                    return true;
                },
                _ => {
                    return false;
                },
            }
        }
    }
}

impl<'a, T: PartialEq> vstd::std_specs::cmp::PartialEqSpecImpl for LinkedList<'a, T> {
    open spec fn obeys_eq_spec() -> bool {
        T::obeys_eq_spec()
    }

    open spec fn eq_spec(&self, other: &Self) -> bool {
        elementwise_eq(self@, other@)
    }
}

impl<'a, T: PartialOrd> PartialOrd for LinkedList<'a, T> {
    fn partial_cmp(&self, other: &Self) -> (r: Option<Ordering>) {
        let mut a = self.iter();
        let mut b = other.iter();
        loop
            invariant
                T::obeys_partial_cmp_spec() ==> lex_cmp(self@, other@) == lex_cmp(a@, b@),
            decreases a@.len(),
        {
            match (a.next(), b.next()) {
                (Some(x), Some(y)) => {
                    let c = x.partial_cmp(y);
                    match c {
                        Some(Ordering::Equal) => {},
                        _ => {
                            return c;
                        },
                    }
                },
                (None, None) => {
                    return Some(Ordering::Equal);
                },
                (None, Some(_)) => {
                    return Some(Ordering::Less);
                },
                (Some(_), None) => {
                    return Some(Ordering::Greater);
                },
            }
        }
    }
}

impl<'a, T: PartialOrd> vstd::std_specs::cmp::PartialOrdSpecImpl for LinkedList<'a, T> {
    open spec fn obeys_partial_cmp_spec() -> bool {
        T::obeys_partial_cmp_spec()
    }

    open spec fn partial_cmp_spec(&self, other: &Self) -> Option<Ordering> {
        lex_cmp(self@, other@)
    }
}

/// Two lists that hold the same elements in the same order are the same
/// value, and compare equal wherever the element type's `==` is plain
/// equality.
pub proof fn lemma_same_elements_equal<'a, T: PartialEq>(
    a: LinkedList<'a, T>,
    b: LinkedList<'a, T>,
)
    requires
        a@ == b@,
    ensures
        a == b,
        obeys_concrete_eq::<T>() ==> a.eq_spec(&b),
    decreases a,
{
    reveal(obeys_concrete_eq);
    match (a, b) {
        (LinkedList::Node { value: va, next: na }, LinkedList::Node { value: vb, next: nb }) => {
            assert(va == a@[0] && vb == b@[0]);
            assert(na@ =~= a@.drop_first());
            assert(nb@ =~= b@.drop_first());
            lemma_same_elements_equal(*na, *nb);
        },
        _ => {},
    }
}

/// A list that is a strict prefix of another compares as less than it,
/// where the element type's order is consistent with plain equality.
pub proof fn lemma_prefix_is_less<'a, T: PartialOrd>(
    a: LinkedList<'a, T>,
    b: LinkedList<'a, T>,
)
    requires
        obeys_concrete_eq::<T>(),
        obeys_cmp_partial_ord::<T>(),
        a@.len() < b@.len(),
        a@ == b@.subrange(0, a@.len() as int),
    ensures
        a.partial_cmp_spec(&b) == Some(Ordering::Less),
{
    lemma_lex_cmp_prefix(a@, b@);
}

proof fn lemma_lex_cmp_prefix<T: PartialOrd>(a: Seq<T>, b: Seq<T>)
    requires
        obeys_concrete_eq::<T>(),
        obeys_cmp_partial_ord::<T>(),
        a.len() < b.len(),
        a == b.subrange(0, a.len() as int),
    ensures
        lex_cmp(a, b) == Some(Ordering::Less),
    decreases a.len(),
{
    reveal(obeys_concrete_eq);
    reveal(obeys_cmp_partial_ord);
    if a.len() > 0 {
        assert(a[0] == b[0]);
        assert(a[0].eq_spec(&b[0]));
        assert(a.drop_first() =~= b.drop_first().subrange(0, a.len() - 1));
        lemma_lex_cmp_prefix(a.drop_first(), b.drop_first());
    }
}

/// Reading the element at an index agrees with advancing to that index and
/// reading the front: in range, the sublist is non-empty and its front is
/// that element.
pub proof fn lemma_get_is_front_of_skip<'a, T>(l: LinkedList<'a, T>, i: int)
    requires
        0 <= i < l@.len(),
    ensures
        l@.skip(i).len() > 0,
        l@.skip(i)[0] == l@[i],
{
}

/// Prepending leaves the original list as the new list's exact tail: the new
/// list is one longer, starts with the new value, and then holds the
/// original's elements.
pub proof fn lemma_prepend_shares_suffix<'a, T>(a: &'a LinkedList<'a, T>, x: T)
    ensures
        ({
            let b = LinkedList::Node { value: x, next: a };
            &&& b@.len() == a@.len() + 1
            &&& b@[0] == x
            &&& b@.drop_first() == a@
            &&& b matches LinkedList::Node { next, .. } && *next == *a
        }),
{
    let b = LinkedList::Node { value: x, next: a };
    assert(b@.drop_first() =~= a@);
}

/// Queries change nothing: two calls on the same list, with the same
/// arguments, give the same result.
pub proof fn lemma_queries_repeatable<'a, T: PartialEq>(
    l: &LinkedList<'a, T>,
    v: &T,
    n: usize,
)
    ensures
        forall|r1: ListIter<'_, T>, r2: ListIter<'_, T>|
            call_ensures(LinkedList::iter, (l,), r1) && call_ensures(LinkedList::iter, (l,), r2)
                ==> r1@ == r2@,
        forall|r1: usize, r2: usize|
            call_ensures(LinkedList::len, (l,), r1) && call_ensures(LinkedList::len, (l,), r2)
                ==> r1 == r2,
        forall|r1: bool, r2: bool|
            call_ensures(LinkedList::is_empty, (l,), r1) && call_ensures(
                LinkedList::is_empty,
                (l,),
                r2,
            ) ==> r1 == r2,
        T::obeys_eq_spec() ==> forall|r1: bool, r2: bool|
            call_ensures(LinkedList::contains, (l, v), r1) && call_ensures(
                LinkedList::contains,
                (l, v),
                r2,
            ) ==> r1 == r2,
        forall|r1: Option<&T>, r2: Option<&T>|
            call_ensures(LinkedList::front, (l,), r1) && call_ensures(LinkedList::front, (l,), r2)
                ==> r1 == r2,
        forall|r1: Option<&T>, r2: Option<&T>|
            call_ensures(LinkedList::back, (l,), r1) && call_ensures(LinkedList::back, (l,), r2)
                ==> r1 == r2,
        forall|r1: Option<&T>, r2: Option<&T>|
            call_ensures(LinkedList::get, (l, n), r1) && call_ensures(LinkedList::get, (l, n), r2)
                ==> r1 == r2,
        forall|r1: Option<&LinkedList<'a, T>>, r2: Option<&LinkedList<'a, T>>|
            call_ensures(LinkedList::tail, (l,), r1) && call_ensures(LinkedList::tail, (l,), r2)
                ==> r1 == r2,
        forall|r1: Option<&LinkedList<'a, T>>, r2: Option<&LinkedList<'a, T>>|
            call_ensures(LinkedList::skip, (l, n), r1) && call_ensures(LinkedList::skip, (l, n), r2)
                ==> (r1 is Some <==> r2 is Some) && (r1 matches Some(s1) ==> r2 matches Some(s2)
                && s1@ == s2@),
{
}

/// A forward cursor over a list.
pub struct ListIter<'a, T>(&'a LinkedList<'a, T>);

impl<'a, T> ListIter<'a, T> {
    /// The elements not yet handed out.
    pub closed spec fn view(&self) -> Seq<T> {
        self.0@
    }

    /// Hands out the element under the cursor and advances past it; at the
    /// end it hands out nothing and stays there.
    pub fn next(&mut self) -> (r: Option<&'a T>)
        ensures
            old(self)@.len() == 0 ==> r is None && final(self)@ == old(self)@,
            old(self)@.len() > 0 ==> r == Some(&old(self)@[0]) && final(self)@
                == old(self)@.drop_first(),
    {
        match self.0 {
            LinkedList::Node { value, next } => {
                self.0 = next;
                Some(value)
            },
            LinkedList::Tail => None,
        }
    }
}

} // verus!
