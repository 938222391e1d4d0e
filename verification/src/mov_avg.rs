//! A moving average over the last few values inserted.

use vstd::prelude::*;

verus! {

/// How many values are kept in the moving average.
pub const NUM: usize = 10;

/// A fixed window of the last [`NUM`] values inserted, as a ring buffer.
///
/// The values are of any `Copy` type `T`; the window starts out filled with
/// `T::default()`.
#[derive(Debug)]
pub struct MovingAverage<T> {
    /// which index is the next to be replaced
    index: usize,
    list: [T; NUM],
    /// when set, an insertion refills the whole window; no operation sets it
    new: bool,
}

impl<T> MovingAverage<T> {
    #[verifier::type_invariant]
    spec fn well_formed(self) -> bool {
        &&& self.index < NUM
        &&& !self.new
    }

    /// The slot that the next insertion overwrites.
    pub closed spec fn next_slot(self) -> int {
        self.index as int
    }
}

impl<T: Copy + Default> MovingAverage<T> {
    /// A window filled with `T::default()`.
    pub fn new() -> (m: Self)
        ensures
            m@.len() == NUM,
            forall|i: int| 0 <= i < NUM ==> call_ensures(T::default, (), #[trigger] m@[i]),
            forall|i: int, j: int| 0 <= i < NUM && 0 <= j < NUM ==> m@[i] == m@[j],
            m.next_slot() == 0,
    {
        let zero = T::default();
        let m = Self { index: 0, list: [zero; NUM], new: false };
        assert(m@ =~= m.list@);
        m
    }
}

impl<T: Copy> MovingAverage<T> {
    /// Insert `x`, replacing the oldest value of the window.
    pub fn insert(&mut self, x: T)
        ensures
            final(self)@.len() == NUM,
            final(self).next_slot() == (old(self).next_slot() + 1) % (NUM as int),
            final(self)@ == old(self)@.drop_first().push(x),
    {
        proof {
            use_type_invariant(&*self);
        }
        if self.new {
            // the refill mode is never on (see the type invariant)
            self.list = [x; NUM];
        } else {
            let i = self.index;
            let ghost before = self.list@;
            self.list[i] = x;
            let next = if i + 1 >= NUM {
                0
            } else {
                i + 1
            };
            self.index = next;
            assert(self.list@ == before.update(i as int, x));
            assert(self@ =~= (before.subrange(i as int, NUM as int) + before.subrange(0, i as int)).drop_first().push(x));
        }
    }

    /// The values of the window in the order of their slots: the window
    /// rotated so that the slot overwritten next comes at `next_slot()`.
    pub fn values(&self) -> (v: [T; NUM])
        ensures
            0 <= self.next_slot() < NUM,
            v@ == self@.subrange(NUM - self.next_slot(), NUM as int) + self@.subrange(
                0,
                NUM - self.next_slot(),
            ),
    {
        proof {
            use_type_invariant(self);
        }
        assert(self.list@ =~= self@.subrange(NUM - self.next_slot(), NUM as int) + self@.subrange(
            0,
            NUM - self.next_slot(),
        ));
        self.list
    }
}

impl<T> View for MovingAverage<T> {
    type V = Seq<T>;

    /// The values in the window, oldest first.
    closed spec fn view(&self) -> Seq<T> {
        self.list@.subrange(self.index as int, NUM as int) + self.list@.subrange(
            0,
            self.index as int,
        )
    }
}

/// The window `w` after inserting the values of `xs` one by one, each
/// replacing the oldest value, as [`MovingAverage::insert`] does.
pub open spec fn insert_all<T>(w: Seq<T>, xs: Seq<T>) -> Seq<T>
    decreases xs.len(),
{
    if xs.len() == 0 {
        w
    } else {
        insert_all(w.drop_first().push(xs[0]), xs.drop_first())
    }
}

/// The window keeps exactly the last values inserted: after inserting `xs`
/// into the window `w`, it holds the last `w.len()` values of `w` followed by
/// `xs`, oldest first; once at least `w.len()` values went in, only they count.
pub proof fn lemma_window_keeps_last<T>(w: Seq<T>, xs: Seq<T>)
    requires
        w.len() > 0,
    ensures
        insert_all(w, xs) == (w + xs).subrange(xs.len() as int, xs.len() as int + w.len()),
        xs.len() >= w.len() ==> insert_all(w, xs) == xs.subrange(
            xs.len() - w.len(),
            xs.len() as int,
        ),
    decreases xs.len(),
{
    if xs.len() > 0 {
        let w2 = w.drop_first().push(xs[0]);
        lemma_window_keeps_last(w2, xs.drop_first());
        assert((w2 + xs.drop_first()).subrange(
            xs.len() - 1,
            xs.len() as int - 1 + w2.len(),
        ) =~= (w + xs).subrange(xs.len() as int, xs.len() as int + w.len()));
    } else {
        assert((w + xs).subrange(0, w.len() as int) =~= w);
    }
    if xs.len() >= w.len() {
        assert((w + xs).subrange(xs.len() as int, xs.len() as int + w.len()) =~= xs.subrange(
            xs.len() - w.len(),
            xs.len() as int,
        ));
    }
}

} // verus!
