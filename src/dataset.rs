//! An immutable, randomly indexable collection of items.
use vstd::prelude::*;

verus! {

/// The items a loader session draws its batches from. Once built it is
/// never changed, so any number of readers may share it.
pub struct Dataset<T> {
    data: Vec<T>,
}

impl<T> View for Dataset<T> {
    type V = Seq<T>;

    closed spec fn view(&self) -> Seq<T> {
        self.data@
    }
}

impl<T> Dataset<T> {
    /// Takes ownership of `data`; item `i` of the dataset is `data[i]`.
    pub fn new(data: Vec<T>) -> (r: Self)
        ensures
            r@ == data@,
    {
        Dataset { data }
    }

    /// Number of items.
    pub fn len(&self) -> (r: usize)
        ensures
            r == self@.len(),
    {
        self.data.len()
    }

    /// Item `index`, which must be in range.
    pub fn get(&self, index: usize) -> (r: &T)
        requires
            index < self@.len(),
        ensures
            *r == self@[index as int],
    {
        &self.data[index]
    }
}

impl<T: Clone> Dataset<T> {
    /// A batch holding a copy of the item at each of `indices`, in the order
    /// of `indices`.
    pub fn gather(&self, indices: &[usize]) -> (r: Vec<T>)
        requires
            forall|k: int| 0 <= k < indices@.len() ==> indices@[k] < self@.len(),
        ensures
            r@.len() == indices@.len(),
            forall|k: int|
                0 <= k < indices@.len() ==> cloned(self@[indices@[k] as int], #[trigger] r@[k]),
    {
        let mut batch: Vec<T> = Vec::with_capacity(indices.len());
        let mut k: usize = 0;
        while k < indices.len()
            invariant
                k <= indices@.len(),
                batch@.len() == k,
                forall|j: int| 0 <= j < indices@.len() ==> indices@[j] < self@.len(),
                forall|j: int|
                    0 <= j < k ==> cloned(self@[indices@[j] as int], #[trigger] batch@[j]),
            decreases indices@.len() - k,
        {
            let item = self.get(indices[k]).clone();
            batch.push(item);
            k = k + 1;
        }
        batch
    }
}

} // verus!
