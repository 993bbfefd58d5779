//! The index scheduler: a queue of item indices, drawn from the front one
//! batch at a time until it is exhausted.
use vstd::prelude::*;

verus! {

/// Why a loader session could not be set up.
#[derive(Debug, Clone, Copy, PartialEq, Eq, Structural)]
pub enum LoaderError {
    /// A batch size or a worker count of zero.
    InvalidConfiguration,
}

/// The settings of one loader session.
#[derive(Debug, Clone, Copy, PartialEq, Eq, Structural)]
pub struct LoaderConfig {
    pub batch_size: usize,
    pub shuffle: bool,
    pub num_workers: usize,
    pub drop_last: bool,
}

impl LoaderConfig {
    /// A configuration, accepted exactly when both the batch size and the
    /// number of workers are nonzero.
    pub fn new(batch_size: usize, shuffle: bool, num_workers: usize, drop_last: bool) -> (r: Result<
        LoaderConfig,
        LoaderError,
    >)
        ensures
            r is Ok <==> (batch_size > 0 && num_workers > 0),
            r matches Ok(c) ==> c.batch_size == batch_size && c.shuffle == shuffle
                && c.num_workers == num_workers && c.drop_last == drop_last,
            r matches Err(e) ==> e == LoaderError::InvalidConfiguration,
    {
        if batch_size == 0 || num_workers == 0 {
            Err(LoaderError::InvalidConfiguration)
        } else {
            Ok(LoaderConfig { batch_size, shuffle, num_workers, drop_last })
        }
    }
}

/// The indices `0, 1, ..., n - 1` in ascending order.
pub open spec fn ascending(n: nat) -> Seq<usize> {
    Seq::new(n, |i: int| i as usize)
}

/// What one request to a queue holding `q` hands out: the first `bs`
/// indices when there are that many; otherwise the short remainder, unless
/// it is empty or short batches are dropped, in which case nothing.
pub open spec fn next_slice(q: Seq<usize>, bs: nat, drop_last: bool) -> Option<Seq<usize>> {
    if q.len() >= bs {
        Some(q.take(bs as int))
    } else if drop_last || q.len() == 0 {
        None
    } else {
        Some(q)
    }
}

/// Every batch that a queue holding `q` hands out, in the order in which
/// they are drawn.
pub open spec fn batches_of(q: Seq<usize>, bs: nat, drop_last: bool) -> Seq<Seq<usize>>
    decreases q.len(),
{
    if bs == 0 || q.len() == 0 {
        seq![]
    } else if q.len() >= bs {
        seq![q.take(bs as int)] + batches_of(q.skip(bs as int), bs, drop_last)
    } else if drop_last {
        seq![]
    } else {
        seq![q]
    }
}

/// Relies on rand's `SliceRandom::shuffle`, driven by the thread-local
/// generator: it only swaps elements, so the result is a permutation.
#[verifier::external_body]
fn shuffle_indices(v: &mut Vec<usize>)
    ensures
        final(v)@.len() == old(v)@.len(),
        final(v)@.to_multiset() == old(v)@.to_multiset(),
{
    rand::seq::SliceRandom::shuffle(v.as_mut_slice(), &mut rand::rng());
}

/// The indices `v[lo..hi]` as a new vector.
fn copy_range(v: &Vec<usize>, lo: usize, hi: usize) -> (r: Vec<usize>)
    requires
        lo <= hi <= v@.len(),
    ensures
        r@ == v@.subrange(lo as int, hi as int),
{
    let mut out: Vec<usize> = Vec::with_capacity(hi - lo);
    let mut i: usize = lo;
    while i < hi
        invariant
            lo <= i <= hi <= v@.len(),
            out@ == v@.subrange(lo as int, i as int),
        decreases hi - i,
    {
        out.push(v[i]);
        i = i + 1;
        assert(out@ =~= v@.subrange(lo as int, i as int));
    }
    out
}

/// The shared queue of indices that workers draw their batches from.
/// What it still holds is `order[front..]`.
pub struct IndexQueue {
    order: Vec<usize>,
    front: usize,
    batch_size: usize,
    drop_last: bool,
}

impl View for IndexQueue {
    type V = Seq<usize>;

    /// The indices not yet handed out, front first.
    closed spec fn view(&self) -> Seq<usize> {
        self.order@.skip(self.front as int)
    }
}

impl IndexQueue {
    pub closed spec fn wf(&self) -> bool {
        self.front <= self.order@.len() && self.batch_size > 0
    }

    pub closed spec fn batch_size(&self) -> nat {
        self.batch_size as nat
    }

    pub closed spec fn drop_last(&self) -> bool {
        self.drop_last
    }

    /// A queue of the indices of `len` items: in ascending order, or in a
    /// random order when the configuration asks for shuffling.
    pub fn new(len: usize, config: &LoaderConfig) -> (r: IndexQueue)
        requires
            config.batch_size > 0,
        ensures
            r.wf(),
            r.batch_size() == config.batch_size,
            r.drop_last() == config.drop_last,
            r@.len() == len,
            r@.to_multiset() == ascending(len as nat).to_multiset(),
            !config.shuffle ==> r@ == ascending(len as nat),
    {
        let mut order: Vec<usize> = Vec::with_capacity(len);
        let mut i: usize = 0;
        while i < len
            invariant
                i <= len,
                order@ == ascending(i as nat),
            decreases len - i,
        {
            order.push(i);
            i = i + 1;
            assert(order@ =~= ascending(i as nat));
        }
        if config.shuffle {
            shuffle_indices(&mut order);
        }
        assert(order@.skip(0) =~= order@);
        IndexQueue { order, front: 0, batch_size: config.batch_size, drop_last: config.drop_last }
    }

    /// Number of indices not yet handed out.
    pub fn remaining(&self) -> (r: usize)
        requires
            self.wf(),
        ensures
            r == self@.len(),
    {
        self.order.len() - self.front
    }

    /// Draws the next batch of indices from the front, as `next_slice`
    /// describes. When nothing is handed out the queue is exhausted for
    /// good: whatever it still held is discarded.
    pub fn take_slice(&mut self) -> (r: Option<Vec<usize>>)
        requires
            old(self).wf(),
        ensures
            final(self).wf(),
            final(self).batch_size() == old(self).batch_size(),
            final(self).drop_last() == old(self).drop_last(),
            match r {
                Some(s) => next_slice(old(self)@, old(self).batch_size(), old(self).drop_last())
                    == Some(s@) && final(self)@ == old(self)@.skip(s@.len() as int),
                None => next_slice(old(self)@, old(self).batch_size(), old(self).drop_last())
                    is None && final(self)@.len() == 0,
            },
            r matches Some(s) ==> s@.len() > 0 && final(self)@.len() < old(self)@.len(),
    {
        let len = self.order.len();
        let rest = len - self.front;
        if rest >= self.batch_size {
            let end = self.front + self.batch_size;
            let s = copy_range(&self.order, self.front, end);
            proof {
                assert(s@ =~= old(self)@.take(self.batch_size as int));
            }
            self.front = end;
            assert(self@ =~= old(self)@.skip(s@.len() as int));
            Some(s)
        } else if self.drop_last || rest == 0 {
            self.front = len;
            None
        } else {
            let s = copy_range(&self.order, self.front, len);
            assert(s@ =~= old(self)@);
            self.front = len;
            assert(self@ =~= old(self)@.skip(s@.len() as int));
            Some(s)
        }
    }
    /// Draws batches until the queue is exhausted, as a single worker would,
    /// and returns them in the order drawn.
    pub fn take_all(&mut self) -> (r: Vec<Vec<usize>>)
        requires
            old(self).wf(),
        ensures
            final(self).wf(),
            final(self)@.len() == 0,
            r@.map_values(|b: Vec<usize>| b@) == batches_of(
                old(self)@,
                old(self).batch_size(),
                old(self).drop_last(),
            ),
    {
        let ghost bs = self.batch_size();
        let ghost d = self.drop_last();
        let ghost start = self@;
        let mut out: Vec<Vec<usize>> = Vec::new();
        loop
            invariant
                self.wf(),
                self.batch_size() == bs,
                self.drop_last() == d,
                out@.map_values(|b: Vec<usize>| b@) + batches_of(self@, bs, d) == batches_of(
                    start,
                    bs,
                    d,
                ),
            ensures
                self.wf(),
                self@.len() == 0,
                out@.map_values(|b: Vec<usize>| b@) == batches_of(start, bs, d),
            decreases self@.len(),
        {
            let ghost before = self@;
            proof {
                lemma_batches_step(before, bs, d);
            }
            match self.take_slice() {
                Some(s) => {
                    let ghost sv = s@;
                    let ghost prev = out@.map_values(|b: Vec<usize>| b@);
                    out.push(s);
                    assert(out@.map_values(|b: Vec<usize>| b@) =~= prev.push(sv));
                    assert(prev.push(sv) + batches_of(self@, bs, d) =~= prev + (seq![sv]
                        + batches_of(self@, bs, d)));
                },
                None => {
                    assert(out@.map_values(|b: Vec<usize>| b@) + batches_of(before, bs, d)
                        =~= out@.map_values(|b: Vec<usize>| b@));
                    break ;
                },
            }
        }
        out
    }
}

/// All indices of `batches`, batch after batch.
pub open spec fn joined(batches: Seq<Seq<usize>>) -> Seq<usize>
    decreases batches.len(),
{
    if batches.len() == 0 {
        seq![]
    } else {
        batches[0] + joined(batches.skip(1))
    }
}

/// One request to the queue splits its batch sequence into the batch handed
/// out and the batches of what is left.
proof fn lemma_batches_step(q: Seq<usize>, bs: nat, d: bool)
    requires
        bs > 0,
    ensures
        match next_slice(q, bs, d) {
            Some(s) => batches_of(q, bs, d) == seq![s] + batches_of(q.skip(s.len() as int), bs, d),
            None => batches_of(q, bs, d) == Seq::<Seq<usize>>::empty(),
        },
{
    if q.len() > 0 && q.len() < bs && !d {
        assert(q.skip(q.len() as int).len() == 0);
        assert(batches_of(q.skip(q.len() as int), bs, d) == Seq::<Seq<usize>>::empty());
        assert(seq![q] + Seq::<Seq<usize>>::empty() =~= seq![q]);
    }
}

proof fn lemma_joined_cons(s: Seq<usize>, rest: Seq<Seq<usize>>)
    ensures
        joined(seq![s] + rest) == s + joined(rest),
{
    assert((seq![s] + rest).skip(1) =~= rest);
}

proof fn lemma_sub_divisor(n: int, b: int)
    requires
        b > 0,
        n >= b,
    ensures
        (n - b) / b == n / b - 1,
        (n - b) % b == n % b,
{
    vstd::arithmetic::div_mod::lemma_fundamental_div_mod(n, b);
    vstd::arithmetic::div_mod::lemma_mod_pos_bound(n, b);
    assert(n - b == (n / b - 1) * b + n % b) by (nonlinear_arith)
        requires
            n == b * (n / b) + n % b,
    ;
    vstd::arithmetic::div_mod::lemma_fundamental_div_mod_converse(n - b, b, n / b - 1, n % b);
}

/// Without dropping, the batches hold every index of the queue exactly once,
/// in the order of the queue; so a queue built over `n` items yields each of
/// `0..n` exactly once.
pub proof fn law_coverage(q: Seq<usize>, n: nat, bs: nat)
    requires
        bs > 0,
        q.to_multiset() == ascending(n).to_multiset(),
    ensures
        joined(batches_of(q, bs, false)) == q,
        joined(batches_of(q, bs, false)).to_multiset() == ascending(n).to_multiset(),
{
    lemma_joined_all(q, bs);
}

proof fn lemma_joined_all(q: Seq<usize>, bs: nat)
    requires
        bs > 0,
    ensures
        joined(batches_of(q, bs, false)) == q,
    decreases q.len(),
{
    if q.len() == 0 {
        assert(joined(batches_of(q, bs, false)) =~= q);
    } else if q.len() >= bs {
        lemma_joined_all(q.skip(bs as int), bs);
        lemma_joined_cons(q.take(bs as int), batches_of(q.skip(bs as int), bs, false));
        assert(q.take(bs as int) + q.skip(bs as int) =~= q);
    } else {
        lemma_joined_cons(q, Seq::<Seq<usize>>::empty());
        assert(q + Seq::<usize>::empty() =~= q);
    }
}

/// With dropping, exactly the first `(len / bs) * bs` indices of the queue
/// are handed out; the last `len % bs` never are.
pub proof fn law_drop_last(q: Seq<usize>, bs: nat)
    requires
        bs > 0,
    ensures
        joined(batches_of(q, bs, true)) == q.take(((q.len() / bs) * bs) as int),
        joined(batches_of(q, bs, true)).len() == (q.len() / bs) * bs,
    decreases q.len(),
{
    let n = q.len() as int;
    if q.len() >= bs {
        let rest = q.skip(bs as int);
        law_drop_last(rest, bs);
        lemma_sub_divisor(n, bs as int);
        lemma_joined_cons(q.take(bs as int), batches_of(rest, bs, true));
        let k = (rest.len() / bs) * bs;
        let a: int = n / bs as int;
        let c: int = rest.len() as int / bs as int;
        let b: int = bs as int;
        assert(a * b == b + c * b) by (nonlinear_arith)
            requires
                c == a - 1,
        ;
        vstd::arithmetic::div_mod::lemma_fundamental_div_mod(rest.len() as int, b);
        vstd::arithmetic::div_mod::lemma_mod_pos_bound(rest.len() as int, b);
        assert(c * b <= rest.len()) by (nonlinear_arith)
            requires
                rest.len() == b * c + (rest.len() as int) % b,
                (rest.len() as int) % b >= 0,
        ;
        assert(q.take(bs as int) + rest.take(k as int) =~= q.take((bs + k) as int));
    } else {
        vstd::arithmetic::div_mod::lemma_basic_div(n, bs as int);
        assert(joined(batches_of(q, bs, true)) =~= q.take(0));
    }
}

/// Every batch holds `bs` indices but the last, which, when short batches
/// are kept, holds the `len % bs` left over (or `bs` when nothing is left
/// over).
pub proof fn law_batch_sizes(q: Seq<usize>, bs: nat, d: bool)
    requires
        bs > 0,
    ensures
        forall|i: int|
            0 <= i < batches_of(q, bs, d).len() - 1 ==> (#[trigger] batches_of(q, bs, d)[i]).len()
                == bs,
        batches_of(q, bs, d).len() > 0 ==> batches_of(q, bs, d).last().len() == (if d || q.len()
            % bs == 0 {
            bs
        } else {
            q.len() % bs
        }),
    decreases q.len(),
{
    let b = batches_of(q, bs, d);
    if q.len() >= bs {
        let rest = q.skip(bs as int);
        let rb = batches_of(rest, bs, d);
        law_batch_sizes(rest, bs, d);
        lemma_sub_divisor(q.len() as int, bs as int);
        assert(b == seq![q.take(bs as int)] + rb);
        assert forall|i: int| 0 <= i < b.len() - 1 implies (#[trigger] b[i]).len() == bs by {
            if i > 0 {
                assert(b[i] == rb[i - 1]);
            }
        }
        if rb.len() == 0 && !d {
            assert(rest.len() == 0);
            vstd::arithmetic::div_mod::lemma_div_basics(bs as int);
            vstd::arithmetic::div_mod::lemma_fundamental_div_mod_converse(
                q.len() as int,
                bs as int,
                1,
                0,
            );
        }
    } else if q.len() > 0 && !d {
        vstd::arithmetic::div_mod::lemma_small_mod(q.len(), bs);
    }
}

/// Batch `i` is the run of the queue that starts at position `i * bs`:
/// a batch keeps the order in which its indices were drawn.
pub proof fn law_batch_ranges(q: Seq<usize>, bs: nat, d: bool)
    requires
        bs > 0,
    ensures
        forall|i: int|
            0 <= i < batches_of(q, bs, d).len() ==> i * bs + (#[trigger] batches_of(
                q,
                bs,
                d,
            )[i]).len() <= q.len() && batches_of(q, bs, d)[i] == q.subrange(
                i * bs,
                i * bs + batches_of(q, bs, d)[i].len(),
            ),
    decreases q.len(),
{
    let b = batches_of(q, bs, d);
    if q.len() >= bs {
        let rest = q.skip(bs as int);
        let rb = batches_of(rest, bs, d);
        law_batch_ranges(rest, bs, d);
        assert(b == seq![q.take(bs as int)] + rb);
        assert forall|i: int| 0 <= i < b.len() implies i * bs + (#[trigger] b[i]).len() <= q.len()
            && b[i] == q.subrange(i * bs, i * bs + b[i].len()) by {
            if i == 0 {
                assert(i * bs == 0) by (nonlinear_arith)
                    requires
                        i == 0,
                ;
                assert(b[0] =~= q.subrange(0, bs as int));
            } else {
                let j = i - 1;
                assert(b[i] == rb[j]);
                let lo = j * bs;
                let len = rb[j].len() as int;
                assert(lo + len <= rest.len() && rb[j] == rest.subrange(lo, lo + len));
                assert(lo + bs == i * bs) by (nonlinear_arith)
                    requires
                        j == i - 1,
                        lo == j * bs,
                ;
                assert(rest.subrange(lo, lo + len) =~= q.subrange(lo + bs, lo + bs + len));
            }
        }
    } else if q.len() > 0 && !d {
        assert(b.len() == 1);
        assert(b[0] =~= q.subrange(0, q.len() as int));
        assert forall|i: int| 0 <= i < b.len() implies i * bs + (#[trigger] b[i]).len() <= q.len()
            && b[i] == q.subrange(i * bs, i * bs + b[i].len()) by {
            assert(i * bs == 0) by (nonlinear_arith)
                requires
                    i == 0,
            ;
        }
    }
}

/// Without shuffling, batch `i` holds the indices `i * bs, i * bs + 1, ...`
/// in ascending order.
pub proof fn law_unshuffled_batches(n: nat, bs: nat, d: bool)
    requires
        bs > 0,
        n <= usize::MAX,
    ensures
        forall|i: int, j: int|
            0 <= i < batches_of(ascending(n), bs, d).len() && 0 <= j < batches_of(
                ascending(n),
                bs,
                d,
            )[i].len() ==> #[trigger] batches_of(ascending(n), bs, d)[i][j] as int == i * bs + j,
{
    law_batch_ranges(ascending(n), bs, d);
    let b = batches_of(ascending(n), bs, d);
    assert forall|i: int, j: int| 0 <= i < b.len() && 0 <= j < b[i].len() implies #[trigger] b[i][j]
        as int == i * bs + j by {
        assert(b[i] == ascending(n).subrange(i * bs, i * bs + b[i].len()));
        assert(0 <= i * bs) by (nonlinear_arith)
            requires
                0 <= i,
        ;
    }
}

/// Drawing ends: every batch handed out is nonempty, so there are at most as
/// many batches as indices.
pub proof fn law_termination(q: Seq<usize>, bs: nat, d: bool)
    requires
        bs > 0,
    ensures
        batches_of(q, bs, d).len() <= q.len(),
        forall|i: int|
            0 <= i < batches_of(q, bs, d).len() ==> (#[trigger] batches_of(q, bs, d)[i]).len() > 0,
    decreases q.len(),
{
    let b = batches_of(q, bs, d);
    if q.len() >= bs {
        let rest = q.skip(bs as int);
        let rb = batches_of(rest, bs, d);
        law_termination(rest, bs, d);
        assert(b == seq![q.take(bs as int)] + rb);
        assert forall|i: int| 0 <= i < b.len() implies (#[trigger] b[i]).len() > 0 by {
            if i > 0 {
                assert(b[i] == rb[i - 1]);
            }
        }
    }
}

} // verus!
