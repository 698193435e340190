//! Traversal orders over an ordered sequence of items: sequential, or alternating ends.
use vstd::prelude::*;

verus! {

/// The order in which selected items are renamed.
#[derive(Clone, Copy, Debug, PartialEq, Eq, Structural)]
pub enum Order {
    /// The given order, unchanged.
    Sequential,
    /// Alternately the first and the last remaining item.
    SingleSidedScans,
}

/// How the items of a selection are sorted before they are renamed.
#[derive(Clone, Copy, Debug, PartialEq, Eq, Structural)]
pub enum SortBy {
    /// In the order they were found.
    Discovered,
    /// By their names, in lexicographical order.
    Lexicographical,
}

impl Default for SortBy {
    fn default() -> (r: Self)
        ensures
            r == SortBy::Lexicographical,
    {
        SortBy::Lexicographical
    }
}

/// The end from which the next item is taken.
#[derive(Clone, Copy, Debug, PartialEq, Eq, Structural)]
pub enum ForwardOrBackward {
    Forward,
    Backward,
}

/// The items of `s` taken alternately from the front and from the back, starting from the
/// front when `forward` holds.
pub open spec fn alternate<T>(s: Seq<T>, forward: bool) -> Seq<T>
    decreases s.len(),
{
    if s.len() == 0 {
        Seq::empty()
    } else if forward {
        seq![s.first()] + alternate(s.drop_first(), false)
    } else {
        seq![s.last()] + alternate(s.drop_last(), true)
    }
}

/// The order in which a traversal of `s` yields its items.
pub open spec fn traversal_order<T>(s: Seq<T>, order: Order) -> Seq<T> {
    match order {
        Order::Sequential => s,
        Order::SingleSidedScans => alternate(s, true),
    }
}

pub proof fn lemma_alternate_len<T>(s: Seq<T>, forward: bool)
    ensures
        alternate(s, forward).len() == s.len(),
    decreases s.len(),
{
    if s.len() > 0 {
        if forward {
            lemma_alternate_len(s.drop_first(), false);
        } else {
            lemma_alternate_len(s.drop_last(), true);
        }
    }
}

/// Alternating ends yields the items of even position from the front and those of odd
/// position from the back: the `k`-th item is `s[k / 2]` for even `k`, else
/// `s[len - 1 - k / 2]`.
pub proof fn lemma_alternate_index<T>(s: Seq<T>, k: int)
    requires
        0 <= k < s.len(),
    ensures
        alternate(s, true).len() == s.len(),
        alternate(s, true)[k] == if k % 2 == 0 {
            s[k / 2]
        } else {
            s[s.len() - 1 - k / 2]
        },
    decreases s.len(),
{
    lemma_alternate_len(s, true);
    let t = s.drop_first();
    lemma_alternate_len(t, false);
    assert(alternate(s, true) == seq![s.first()] + alternate(t, false));
    if k >= 1 {
        assert(alternate(t, false) == seq![t.last()] + alternate(t.drop_last(), true));
        let u = t.drop_last();
        lemma_alternate_len(u, true);
        if k >= 2 {
            lemma_alternate_index(u, k - 2);
            assert(u[(k - 2) / 2] == s[1 + (k - 2) / 2]);
            assert(u[u.len() - 1 - (k - 2) / 2] == s[1 + u.len() - 1 - (k - 2) / 2]);
        }
    }
}

/// On an empty or one-item sequence, alternating ends yields that sequence.
pub proof fn lemma_alternate_short<T>(s: Seq<T>)
    requires
        s.len() <= 1,
    ensures
        alternate(s, true) == s,
{
    if s.len() == 1 {
        assert(alternate(s.drop_first(), false) =~= Seq::<T>::empty());
        assert(alternate(s, true) =~= s);
    } else {
        assert(alternate(s, true) =~= s);
    }
}

/// Yields the items of a slice alternately from its front and its back.
pub struct ZigZag<'a, T> {
    next: ForwardOrBackward,
    inner: &'a [T],
    front: usize,
    back: usize,
}

impl<'a, T> ZigZag<'a, T> {
    /// The bounds of the remaining items lie within the slice.
    pub closed spec fn wf(&self) -> bool {
        self.front <= self.back <= self.inner@.len()
    }

    /// The items that are still to come, in the order they will come.
    pub closed spec fn order(&self) -> Seq<T> {
        alternate(
            self.inner@.subrange(self.front as int, self.back as int),
            self.next == ForwardOrBackward::Forward,
        )
    }

    /// Starts at the front of `iter`.
    pub fn new(iter: &'a [T]) -> (r: Self)
        ensures
            r.wf(),
            r.order() == alternate(iter@, true),
    {
        let r = ZigZag { next: ForwardOrBackward::Forward, inner: iter, front: 0, back: iter.len() };
        assert(iter@.subrange(0, iter@.len() as int) =~= iter@);
        r
    }

    /// The number of items still to come, as lower and upper bound.
    pub fn size_hint(&self) -> (r: (usize, Option<usize>))
        requires
            self.wf(),
        ensures
            r.0 == self.order().len(),
            r.1 == Some(r.0),
    {
        proof {
            lemma_alternate_len(
                self.inner@.subrange(self.front as int, self.back as int),
                self.next == ForwardOrBackward::Forward,
            );
        }
        let n = self.back - self.front;
        (n, Some(n))
    }

    /// The next item, from the front or the back in turn.
    pub fn next(&mut self) -> (r: Option<&'a T>)
        requires
            old(self).wf(),
        ensures
            final(self).wf(),
            old(self).order().len() == 0 ==> r is None && final(self).order() == old(self).order(),
            old(self).order().len() > 0 ==> r is Some && *r.unwrap() == old(self).order()[0]
                && final(self).order() == old(self).order().drop_first(),
    {
        let ghost rest = self.inner@.subrange(self.front as int, self.back as int);
        proof {
            lemma_alternate_len(rest, self.next == ForwardOrBackward::Forward);
        }
        if self.front == self.back {
            return None;
        }
        let inner: &'a [T] = self.inner;
        match self.next {
            ForwardOrBackward::Forward => {
                let item = &inner[self.front];
                self.front = self.front + 1;
                self.next = ForwardOrBackward::Backward;
                assert(rest.drop_first() =~= self.inner@.subrange(
                    self.front as int,
                    self.back as int,
                ));
                Some(item)
            },
            ForwardOrBackward::Backward => {
                self.back = self.back - 1;
                self.next = ForwardOrBackward::Forward;
                assert(rest.drop_last() =~= self.inner@.subrange(
                    self.front as int,
                    self.back as int,
                ));
                Some(&inner[self.back])
            },
        }
    }
}

/// A traversal of a slice in one of the orders, chosen once before it starts.
pub enum Traversal<'a, T> {
    Sequential { items: &'a [T], pos: usize },
    ZigZag(ZigZag<'a, T>),
}

impl<'a, T> Traversal<'a, T> {
    pub closed spec fn wf(&self) -> bool {
        match self {
            Traversal::Sequential { items, pos } => *pos <= items@.len(),
            Traversal::ZigZag(z) => z.wf(),
        }
    }

    /// The items that are still to come, in the order they will come.
    pub closed spec fn order(&self) -> Seq<T> {
        match self {
            Traversal::Sequential { items, pos } => items@.subrange(*pos as int, items@.len() as int),
            Traversal::ZigZag(z) => z.order(),
        }
    }

    /// A traversal of `items` in the order `order`.
    pub fn new(items: &'a [T], order: Order) -> (r: Self)
        ensures
            r.wf(),
            r.order() == traversal_order(items@, order),
    {
        match order {
            Order::Sequential => {
                assert(items@.subrange(0, items@.len() as int) =~= items@);
                Traversal::Sequential { items, pos: 0 }
            },
            Order::SingleSidedScans => Traversal::ZigZag(ZigZag::new(items)),
        }
    }

    /// The number of items still to come, as lower and upper bound.
    pub fn size_hint(&self) -> (r: (usize, Option<usize>))
        requires
            self.wf(),
        ensures
            r.0 == self.order().len(),
            r.1 == Some(r.0),
    {
        match self {
            Traversal::Sequential { items, pos } => {
                let n = items.len() - *pos;
                (n, Some(n))
            },
            Traversal::ZigZag(z) => z.size_hint(),
        }
    }

    /// The next item of the traversal.
    pub fn next(&mut self) -> (r: Option<&'a T>)
        requires
            old(self).wf(),
        ensures
            final(self).wf(),
            old(self).order().len() == 0 ==> r is None && final(self).order() == old(self).order(),
            old(self).order().len() > 0 ==> r is Some && *r.unwrap() == old(self).order()[0]
                && final(self).order() == old(self).order().drop_first(),
    {
        match self {
            Traversal::Sequential { items, pos } => {
                let all: &'a [T] = *items;
                if *pos == all.len() {
                    return None;
                }
                let item = &all[*pos];
                *pos = *pos + 1;
                assert(all@.subrange(*pos - 1, all@.len() as int).drop_first() =~= all@.subrange(
                    *pos as int,
                    all@.len() as int,
                ));
                Some(item)
            },
            Traversal::ZigZag(z) => z.next(),
        }
    }
}

} // verus!
