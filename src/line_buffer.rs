use std::collections::VecDeque;
use vstd::prelude::*;

verus! {

/// The last `n` items of `s` (all of `s` when it is shorter).
pub open spec fn last_n<T>(s: Seq<T>, n: nat) -> Seq<T> {
    if s.len() <= n {
        s
    } else {
        s.subrange(s.len() - n, s.len() as int)
    }
}

/// What one push does to a window of capacity `c` holding `s`.
pub open spec fn push_window<T>(s: Seq<T>, x: T, c: nat) -> Seq<T> {
    last_n(s.push(x), c)
}

/// The window after pushing each of `items` in turn, starting from `s`.
pub open spec fn push_each<T>(s: Seq<T>, items: Seq<T>, c: nat) -> Seq<T>
    decreases items.len(),
{
    if items.len() == 0 {
        s
    } else {
        push_window(push_each(s, items.drop_last(), c), items.last(), c)
    }
}

proof fn lemma_last_n_push<T>(s: Seq<T>, x: T, c: nat)
    ensures
        last_n(last_n(s, c).push(x), c) == last_n(s.push(x), c),
{
    if s.len() > c {
        let t = s.subrange(s.len() - c, s.len() as int);
        assert(last_n(t.push(x), c) =~= last_n(s.push(x), c));
    }
}

/// Pushing `items` one at a time leaves the last `c` items of everything
/// seen so far, provided the window started within its capacity.
pub proof fn lemma_push_each_keeps_last<T>(s: Seq<T>, items: Seq<T>, c: nat)
    requires
        s.len() <= c,
    ensures
        push_each(s, items, c) == last_n(s + items, c),
    decreases items.len(),
{
    if items.len() > 0 {
        let init = items.drop_last();
        lemma_push_each_keeps_last(s, init, c);
        lemma_last_n_push(s + init, items.last(), c);
        assert((s + init).push(items.last()) =~= s + items);
    } else {
        assert(s + items =~= s);
    }
}

/// Any run of `N` pushes into an empty window of capacity `C` leaves
/// `min(N, C)` items, which are the last `C` pushed, in the order pushed.
pub proof fn lemma_pushes_from_empty<T>(items: Seq<T>, c: nat)
    ensures
        push_each(Seq::<T>::empty(), items, c).len() == if items.len() <= c {
            items.len()
        } else {
            c
        },
        push_each(Seq::<T>::empty(), items, c) == last_n(items, c),
        forall|i: int|
            0 <= i < push_each(Seq::<T>::empty(), items, c).len() ==> #[trigger] push_each(
                Seq::<T>::empty(),
                items,
                c,
            )[i] == items[items.len() - push_each(Seq::<T>::empty(), items, c).len() + i],
{
    lemma_push_each_keeps_last(Seq::<T>::empty(), items, c);
    assert(Seq::<T>::empty() + items =~= items);
}

/// A rolling window over the most recent lines: at most `capacity` items,
/// kept in arrival order, the oldest evicted first.
pub struct LineBuffer<T> {
    lines: VecDeque<T>,
    capacity: usize,
}

impl<T> LineBuffer<T> {
    /// The retained items, oldest first.
    pub closed spec fn view(&self) -> Seq<T> {
        self.lines@
    }

    pub closed spec fn cap(&self) -> nat {
        self.capacity as nat
    }

    pub closed spec fn wf(&self) -> bool {
        self.lines@.len() <= self.capacity
    }

    /// An empty window that keeps at most `capacity` items.
    pub fn new(capacity: usize) -> (r: Self)
        ensures
            r.wf(),
            r@ == Seq::<T>::empty(),
            r.cap() == capacity,
    {
        LineBuffer { lines: VecDeque::new(), capacity }
    }

    pub fn capacity(&self) -> (r: usize)
        ensures
            r == self.cap(),
    {
        self.capacity
    }

    pub fn len(&self) -> (r: usize)
        requires
            self.wf(),
        ensures
            r == self@.len(),
            r <= self.cap(),
    {
        self.lines.len()
    }

    pub fn is_empty(&self) -> (r: bool)
        ensures
            r == (self@.len() == 0),
    {
        self.lines.len() == 0
    }

    /// The `i`-th retained item, counting from the oldest.
    pub fn get(&self, i: usize) -> (r: &T)
        requires
            i < self@.len(),
        ensures
            *r == self@[i as int],
    {
        &self.lines[i]
    }

    /// Appends `line`, evicting the oldest item when the window is full.
    pub fn push(&mut self, line: T)
        requires
            old(self).wf(),
        ensures
            final(self).wf(),
            final(self).cap() == old(self).cap(),
            final(self)@ == push_window(old(self)@, line, old(self).cap()),
    {
        if self.capacity == 0 {
            assert(push_window(old(self)@, line, 0) =~= Seq::<T>::empty());
            return;
        }
        if self.lines.len() == self.capacity {
            self.lines.pop_front();
        }
        self.lines.push_back(line);
        assert(self.lines@ =~= push_window(old(self)@, line, old(self).cap()));
    }

    /// Pushes each of `items` in order; the window then holds the last
    /// `capacity` items of its old contents followed by `items`.
    pub fn push_all(&mut self, items: Vec<T>)
        requires
            old(self).wf(),
        ensures
            final(self).wf(),
            final(self).cap() == old(self).cap(),
            final(self)@ == push_each(old(self)@, items@, old(self).cap()),
            final(self)@ == last_n(old(self)@ + items@, old(self).cap()),
    {
        let ghost start = self@;
        let ghost all = items@;
        let mut items = items;
        let ghost mut k: int = 0;
        while items.len() > 0
            invariant
                self.wf(),
                self.cap() == old(self).cap(),
                0 <= k <= all.len(),
                items@ == all.subrange(k, all.len() as int),
                self@ == push_each(start, all.subrange(0, k), self.cap()),
            decreases items.len(),
        {
            let x = items.remove(0);
            assert(all.subrange(0, k + 1).drop_last() =~= all.subrange(0, k));
            self.push(x);
            proof {
                k = k + 1;
            }
            assert(items@ =~= all.subrange(k, all.len() as int));
        }
        assert(all.subrange(0, k) =~= all);
        proof {
            lemma_push_each_keeps_last(start, all, self.cap());
        }
    }
}

impl<T: Clone> LineBuffer<T> {
    /// A copy of the retained items, oldest first; the window is unchanged.
    pub fn snapshot(&self) -> (r: Vec<T>)
        ensures
            r@.len() == self@.len(),
            forall|i: int| 0 <= i < r@.len() ==> cloned::<T>(self@[i], #[trigger] r@[i]),
    {
        let mut r: Vec<T> = Vec::new();
        let mut i: usize = 0;
        while i < self.lines.len()
            invariant
                i <= self@.len(),
                r@.len() == i,
                forall|j: int| 0 <= j < i ==> cloned::<T>(self@[j], #[trigger] r@[j]),
            decreases self@.len() - i,
        {
            r.push(self.lines[i].clone());
            i = i + 1;
        }
        r
    }
}

} // verus!
