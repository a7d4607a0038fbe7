//! The delay line of a filter: which sample meets which coefficient.

use vstd::prelude::*;

verus! {

/// A filter of finite length. Its state outlives the blocks of samples.
pub struct Fir<T: Copy> {
    pub taps: Vec<T>,
    pub history: Vec<T>,
    pub cursor: usize,
}

/// The place of the sample that is `k` samples old.
pub open spec fn place(cursor: int, n: int, k: int) -> int {
    if k < cursor {
        cursor - 1 - k
    } else {
        n + cursor - 1 - k
    }
}

/// Whether `r` is what `step` makes of `init` when it takes the coefficients and the
/// samples pair by pair, in order.
pub open spec fn accumulates<T, A, F: Fn(A, T, T) -> A>(
    step: F,
    init: A,
    taps: Seq<T>,
    recent: Seq<T>,
    r: A,
) -> bool {
    exists|sums: Seq<A>| #[trigger] is_run(step, init, taps, recent, sums) && sums.last() == r
}

/// Whether `sums` are the values that lead from `init` through the pairs.
pub open spec fn is_run<T, A, F: Fn(A, T, T) -> A>(
    step: F,
    init: A,
    taps: Seq<T>,
    recent: Seq<T>,
    sums: Seq<A>,
) -> bool {
    &&& sums.len() == taps.len() + 1
    &&& sums[0] == init
    &&& forall|k: int|
        #![trigger taps[k]]
        0 <= k < taps.len() ==> step.ensures((sums[k], taps[k], recent[k]), sums[k + 1])
}

impl<T: Copy> Fir<T> {
    pub open spec fn wf(self) -> bool {
        &&& self.history@.len() == self.taps@.len()
        &&& self.cursor < self.history@.len()
    }

    /// The samples that the filter holds, the latest first.
    pub open spec fn recent(self) -> Seq<T> {
        let n = self.history@.len() as int;
        Seq::new(
            self.history@.len(),
            |k: int| self.history@[place(self.cursor as int, n, k)],
        )
    }

    /// A filter with the given coefficients, at rest.
    pub fn new(taps: Vec<T>, zero: T) -> (r: Self)
        requires
            taps@.len() > 0,
        ensures
            r.wf(),
            r.taps@ == taps@,
            forall|k: int| 0 <= k < taps@.len() ==> r.recent()[k] == zero,
    {
        let mut history: Vec<T> = Vec::with_capacity(taps.len());
        let mut i: usize = 0;
        while i < taps.len()
            invariant
                i <= taps@.len(),
                history@.len() == i,
                forall|k: int| 0 <= k < i ==> history@[k] == zero,
            decreases taps@.len() - i,
        {
            history.push(zero);
            i += 1;
        }
        Fir { taps, history, cursor: 0 }
    }

    /// Takes a sample in; the oldest one leaves.
    pub fn push(&mut self, x: T)
        requires
            old(self).wf(),
        ensures
            final(self).wf(),
            final(self).taps == old(self).taps,
            final(self).recent() == seq![x] + old(self).recent().drop_last(),
    {
        let n: usize = self.history.len();
        self.history.set(self.cursor, x);
        self.cursor = if self.cursor == n - 1 {
            0
        } else {
            self.cursor + 1
        };
        assert(self.recent() =~= seq![x] + old(self).recent().drop_last());
    }

    /// Passes every coefficient with its sample to `step`, the latest sample with the
    /// first coefficient, and hands on what `step` makes of `init`.
    pub fn output<A, F: Fn(A, T, T) -> A>(&self, init: A, step: F) -> (r: A)
        requires
            self.wf(),
            forall|a: A, x: T, y: T| #[trigger] step.requires((a, x, y)),
        ensures
            accumulates(step, init, self.taps@, self.recent(), r),
    {
        let n: usize = self.taps.len();
        let ghost taps = self.taps@;
        let ghost recent = self.recent();
        let ghost mut sums: Seq<A> = seq![init];
        let mut sum: A = init;
        let mut k: usize = 0;
        while k < n
            invariant
                k <= n,
                n == taps.len(),
                self.wf(),
                taps == self.taps@,
                recent == self.recent(),
                forall|a: A, x: T, y: T| #[trigger] step.requires((a, x, y)),
                sums.len() == k + 1,
                sums[0] == init,
                sums.last() == sum,
                forall|j: int|
                    #![trigger taps[j]]
                    0 <= j < k ==> step.ensures((sums[j], taps[j], recent[j]), sums[j + 1]),
            decreases n - k,
        {
            let i: usize = if k < self.cursor {
                self.cursor - 1 - k
            } else {
                (n - 1) - (k - self.cursor)
            };
            assert(recent[k as int] == self.history@[i as int]);
            let ghost before = sums;
            sum = step(sum, self.taps[k], self.history[i]);
            proof {
                sums = before.push(sum);
            }
            k += 1;
        }
        assert(is_run(step, init, taps, recent, sums));
        sum
    }
}

/// The samples that a filter of `n` coefficients holds after `xs` were pushed, from
/// the state `start`.
pub open spec fn delay_line<T>(start: Seq<T>, xs: Seq<T>) -> Seq<T>
    decreases xs.len(),
{
    if xs.len() == 0 {
        start
    } else {
        seq![xs.last()] + delay_line(start, xs.drop_last()).drop_last()
    }
}

/// Coefficient `k` meets the sample that came `k` samples before the latest,
/// however the samples were cut into blocks.
pub proof fn coefficients_meet_their_samples<T>(start: Seq<T>, xs: Seq<T>, k: int)
    requires
        0 <= k < start.len(),
        k < xs.len(),
    ensures
        delay_line(start, xs).len() == start.len(),
        delay_line(start, xs)[k] == xs[xs.len() - 1 - k],
    decreases xs.len(),
{
    lemma_delay_line_len(start, xs.drop_last());
    if k > 0 {
        coefficients_meet_their_samples(start, xs.drop_last(), k - 1);
    }
}

proof fn lemma_delay_line_len<T>(start: Seq<T>, xs: Seq<T>)
    requires
        start.len() > 0,
    ensures
        delay_line(start, xs).len() == start.len(),
    decreases xs.len(),
{
    if xs.len() > 0 {
        lemma_delay_line_len(start, xs.drop_last());
    }
}

/// A filter starts from `init`, and takes one pair after another: the latest sample with the
/// first coefficient first.
pub proof fn pairs_are_taken_one_after_another<T, A, F: Fn(A, T, T) -> A>(
    step: F,
    init: A,
    taps: Seq<T>,
    recent: Seq<T>,
    r: A,
)
    requires
        accumulates(step, init, taps, recent, r),
    ensures
        taps.len() == 0 ==> r == init,
        taps.len() > 0 ==> exists|before: A|
            #[trigger] accumulates(step, init, taps.drop_last(), recent, before) && step.ensures(
                (before, taps.last(), recent[taps.len() - 1]),
                r,
            ),
{
    let sums = choose|sums: Seq<A>| #[trigger]
        is_run(step, init, taps, recent, sums) && sums.last() == r;
    if taps.len() > 0 {
        let n = taps.len() - 1;
        let shorter = sums.drop_last();
        let fewer = taps.drop_last();
        assert(is_run(step, init, fewer, recent, shorter)) by {
            assert forall|k: int| #![trigger fewer[k]] 0 <= k < fewer.len() implies step.ensures(
                (shorter[k], fewer[k], recent[k]),
                shorter[k + 1],
            ) by {
                assert(fewer[k] == taps[k]);
            }
        }
        assert(accumulates(step, init, fewer, recent, shorter.last()));
        assert(taps[n] == taps.last());
    }
}

} // verus!
