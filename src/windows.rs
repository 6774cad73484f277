//! Wrap-around windows: every run of `N` consecutive items of a ring.
use vstd::prelude::*;

verus! {

/// The window of `n` items of `items` that starts at `start`, wrapping
/// around to the front of the sequence.
pub open spec fn window_at<T>(items: Seq<T>, start: int, n: nat) -> Seq<T>
    recommends
        items.len() > 0,
{
    Seq::new(n, |j: int| items[(start + j) % (items.len() as int)])
}

proof fn lemma_wrap(x: int, len: int)
    requires
        0 <= x < 2 * len,
    ensures
        x % len == if x < len {
            x
        } else {
            x - len
        },
{
    if x < len {
        vstd::arithmetic::div_mod::lemma_small_mod(x as nat, len as nat);
    } else {
        vstd::arithmetic::div_mod::lemma_mod_add_multiples_vanish(x - len, len);
        vstd::arithmetic::div_mod::lemma_small_mod((x - len) as nat, len as nat);
    }
}

/// Yields, for a ring of `len` items with `len >= N`, the `len` windows of
/// `N` consecutive items, starting at each item in turn and wrapping around
/// at the end; a ring with fewer than `N` items yields nothing.
pub struct Looped<T, const N: usize> {
    items: Vec<T>,
    yielded: usize,
}

impl<T: Copy, const N: usize> Looped<T, N> {
    /// The items of the ring, in order.
    pub closed spec fn items(&self) -> Seq<T> {
        self.items@
    }

    /// How many windows have been handed out so far.
    pub closed spec fn yielded(&self) -> nat {
        self.yielded as nat
    }

    /// Whether a window is still to come.
    pub open spec fn has_next(&self) -> bool {
        self.items().len() >= N && self.yielded() < self.items().len()
    }

    pub closed spec fn wf(&self) -> bool {
        self.yielded <= self.items@.len()
    }

    pub fn new(items: Vec<T>) -> (r: Self)
        ensures
            r.wf(),
            r.items() == items@,
            r.yielded() == 0,
    {
        Looped { items, yielded: 0 }
    }

    pub fn next(&mut self) -> (r: Option<[T; N]>)
        requires
            old(self).wf(),
            N > 0,
        ensures
            final(self).wf(),
            final(self).items() == old(self).items(),
            old(self).has_next() ==> final(self).yielded() == old(self).yielded() + 1
                && r.is_some()
                && r.unwrap()@ == window_at(old(self).items(), old(self).yielded() as int, N as nat),
            !old(self).has_next() ==> r.is_none() && final(self).yielded() == old(self).yielded(),
    {
        let len = self.items.len();
        if len < N || self.yielded >= len {
            return None;
        }
        let start = self.yielded;
        let mut window: [T; N] = [self.items[start]; N];
        let mut idx: usize = start;
        let mut j: usize = 0;
        while j < N
            invariant
                len == self.items@.len(),
                N <= len,
                start < len,
                idx < len,
                j <= N,
                idx as int == if start + j < len {
                    start + j
                } else {
                    start + j - len
                },
                self.yielded == start,
                forall|k: int|
                    0 <= k < j ==> #[trigger] window@[k] == self.items@[(start + k) % (len as int)],
            decreases N - j,
        {
            proof {
                lemma_wrap(start + j, len as int);
            }
            window[j] = self.items[idx];
            idx = if idx + 1 == len {
                0
            } else {
                idx + 1
            };
            j = j + 1;
        }
        self.yielded = start + 1;
        assert(window@ =~= window_at(self.items@, start as int, N as nat));
        Some(window)
    }
}

} // verus!
