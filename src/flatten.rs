use vstd::prelude::*;

verus! {

/// The elements of the inner vectors, in order, one vector after another.
pub open spec fn flat<T>(v: Seq<Vec<T>>) -> Seq<T> {
    v.map_values(|inner: Vec<T>| inner@).flatten()
}

/// An adapter over a vector of vectors that yields the inner elements in
/// order from the front and in reverse order from the back; the two ends meet
/// and never yield an element twice.
pub struct Flatten<T> {
    items: Vec<T>,
    front: usize,
    back: usize,
}

impl<T> View for Flatten<T> {
    type V = Seq<T>;

    /// The elements not yet yielded from either end.
    closed spec fn view(&self) -> Seq<T> {
        self.items@.subrange(self.front as int, self.back as int)
    }
}

/// Builds the adapter over `iter`.
pub fn flatten<T: Copy>(iter: Vec<Vec<T>>) -> (r: Flatten<T>)
    ensures
        r.wf(),
        r@ == flat(iter@),
{
    Flatten::new(iter)
}

impl<T> Flatten<T> {
    pub closed spec fn wf(&self) -> bool {
        self.front <= self.back <= self.items@.len()
    }
}

impl<T: Copy> Flatten<T> {
    /// Builds the adapter over `iter`.
    pub fn new(iter: Vec<Vec<T>>) -> (r: Self)
        ensures
            r.wf(),
            r@ == flat(iter@),
    {
        let ghost outer = iter@.map_values(|inner: Vec<T>| inner@);
        let mut items: Vec<T> = Vec::new();
        let mut i: usize = 0;
        while i < iter.len()
            invariant
                i <= iter@.len(),
                outer == iter@.map_values(|inner: Vec<T>| inner@),
                items@ == outer.take(i as int).flatten_alt(),
            decreases iter@.len() - i,
        {
            let inner = &iter[i];
            let ghost base = items@;
            let mut j: usize = 0;
            while j < inner.len()
                invariant
                    j <= inner@.len(),
                    items@ == base + inner@.take(j as int),
                decreases inner@.len() - j,
            {
                items.push(inner[j]);
                j += 1;
                assert(items@ =~= base + inner@.take(j as int));
            }
            assert(inner@.take(j as int) =~= inner@);
            assert(outer.take(i + 1).drop_last() =~= outer.take(i as int));
            i += 1;
        }
        assert(outer.take(i as int) =~= outer);
        proof {
            outer.lemma_flatten_and_flatten_alt_are_equivalent();
        }
        let n = items.len();
        Flatten { items, front: 0, back: n }
    }

    /// Yields the first element not yet yielded from either end.
    pub fn next(&mut self) -> (r: Option<T>)
        requires
            old(self).wf(),
        ensures
            final(self).wf(),
            old(self)@.len() == 0 ==> r is None && final(self)@ == old(self)@,
            old(self)@.len() > 0 ==> r == Some(old(self)@[0]) && final(self)@
                == old(self)@.drop_first(),
    {
        if self.front < self.back {
            let x = self.items[self.front];
            self.front = self.front + 1;
            assert(self@ =~= old(self)@.drop_first());
            Some(x)
        } else {
            None
        }
    }

    /// Yields the last element not yet yielded from either end.
    pub fn next_back(&mut self) -> (r: Option<T>)
        requires
            old(self).wf(),
        ensures
            final(self).wf(),
            old(self)@.len() == 0 ==> r is None && final(self)@ == old(self)@,
            old(self)@.len() > 0 ==> r == Some(old(self)@.last()) && final(self)@
                == old(self)@.drop_last(),
    {
        if self.front < self.back {
            self.back = self.back - 1;
            let x = self.items[self.back];
            assert(self@ =~= old(self)@.drop_last());
            Some(x)
        } else {
            None
        }
    }
}

} // verus!
