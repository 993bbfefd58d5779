//! Cutting a flat token stream into overlapping (feature, label) windows for
//! next-token training.
use vstd::prelude::*;

verus! {

/// One training example: a window of the stream and the same window moved
/// one position on.
#[derive(Clone, Debug)]
pub struct TrainData<T> {
    pub feature: Vec<T>,
    pub label: Vec<T>,
}

/// `r[j]` is a copy of `items[lo + j]` for each `j < len`.
pub open spec fn copies_of<T: Clone>(r: Seq<T>, items: Seq<T>, lo: int, len: int) -> bool {
    r.len() == len && forall|j: int| 0 <= j < len ==> cloned(items[lo + j], #[trigger] r[j])
}

/// A copy of `items[lo..hi]`.
fn clone_range<T: Clone>(items: &[T], lo: usize, hi: usize) -> (r: Vec<T>)
    requires
        lo <= hi <= items@.len(),
    ensures
        copies_of(r@, items@, lo as int, hi - lo),
{
    let mut out: Vec<T> = Vec::with_capacity(hi - lo);
    let mut i: usize = lo;
    while i < hi
        invariant
            lo <= i <= hi <= items@.len(),
            copies_of(out@, items@, lo as int, i - lo),
        decreases hi - i,
    {
        let x = items[i].clone();
        out.push(x);
        i = i + 1;
    }
    out
}

/// `d` is the example that starts at position `start` of `items`.
pub open spec fn is_window_at<T: Clone>(d: TrainData<T>, items: Seq<T>, start: int, window: int) -> bool {
    start + window < items.len() && copies_of(d.feature@, items, start, window) && copies_of(
        d.label@,
        items,
        start + 1,
        window,
    )
}

/// The windows of `window` items taken every `stride` positions: example
/// `k` has the feature `items[k * stride .. k * stride + window]` and the
/// label `items[k * stride + 1 .. k * stride + window + 1]`. Windowing stops
/// before the first `k` with `k * stride + window >= items.len()`.
pub fn gen_rnn_train_data<T: Clone>(items: &[T], window: usize, stride: usize) -> (r: Vec<
    TrainData<T>,
>)
    requires
        stride > 0,
    ensures
        r@.len() * stride + window >= items@.len(),
        forall|k: int|
            0 <= k < r@.len() ==> is_window_at(#[trigger] r@[k], items@, k * stride, window as int),
{
    let n = items.len();
    let mut train_data: Vec<TrainData<T>> = Vec::new();
    let mut start: usize = 0;
    assert(0 * stride == 0) by (nonlinear_arith);
    while start < n && window < n - start
        invariant
            n == items@.len(),
            stride > 0,
            start <= n,
            start <= train_data@.len() * stride,
            start < n ==> start == train_data@.len() * stride,
            forall|k: int|
                0 <= k < train_data@.len() ==> is_window_at(
                    #[trigger] train_data@[k],
                    items@,
                    k * stride,
                    window as int,
                ),
        decreases n - start,
    {
        let feature = clone_range(items, start, start + window);
        let label = clone_range(items, start + 1, start + window + 1);
        let ghost count = train_data@.len();
        train_data.push(TrainData { feature, label });
        assert(is_window_at(train_data@[count as int], items@, count * stride, window as int));
        assert((count + 1) * stride == start + stride) by (nonlinear_arith)
            requires
                start == count * stride,
        ;
        if stride > n - start {
            start = n;
        } else {
            start = start + stride;
        }
    }
    train_data
}

} // verus!
