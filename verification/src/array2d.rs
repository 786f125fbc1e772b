use vstd::prelude::*;
use vstd::std_specs::cmp::PartialEqSpec;

verus! {

/// A row-major two-dimensional grid backed by a flat vector.
///
/// The view of an `Array2D` is the flat sequence of its cells; the cell at
/// `(row, col)` lives at index `row * cols + col`.
#[derive(Clone)]
pub struct Array2D<T> {
    data: Vec<T>,
    rows: usize,
    cols: usize,
}

impl<T> View for Array2D<T> {
    type V = Seq<T>;

    closed spec fn view(&self) -> Seq<T> {
        self.data@
    }
}

/// How many elements of `s` compare equal (in the sense of `eq_spec`) to `v`.
pub open spec fn count_matching<T: PartialEq>(s: Seq<T>, v: T) -> int
    decreases s.len(),
{
    if s.len() == 0 {
        0
    } else {
        count_matching(s.drop_last(), v) + if s.last().eq_spec(&v) {
            1int
        } else {
            0int
        }
    }
}

proof fn lemma_count_matching_bound<T: PartialEq>(s: Seq<T>, v: T)
    ensures
        0 <= count_matching(s, v) <= s.len(),
    decreases s.len(),
{
    if s.len() > 0 {
        lemma_count_matching_bound(s.drop_last(), v);
    }
}

impl<T: Copy + PartialEq> Array2D<T> {
    pub closed spec fn spec_rows(&self) -> int {
        self.rows as int
    }

    pub closed spec fn spec_cols(&self) -> int {
        self.cols as int
    }

    pub open spec fn wf(&self) -> bool {
        self@.len() == self.spec_rows() * self.spec_cols()
    }

    /// A `rows` x `cols` grid with every cell set to `value`.
    pub fn new(rows: usize, cols: usize, value: T) -> (r: Self)
        requires
            rows * cols <= usize::MAX,
        ensures
            r.wf(),
            r.spec_rows() == rows,
            r.spec_cols() == cols,
            r@.len() == rows * cols,
            forall|i: int| 0 <= i < r@.len() ==> r@[i] == value,
    {
        let n = rows * cols;
        let mut data: Vec<T> = Vec::new();
        let mut i: usize = 0;
        while i < n
            invariant
                i <= n,
                data@.len() == i,
                forall|k: int| 0 <= k < i ==> data@[k] == value,
            decreases n - i,
        {
            data.push(value);
            i = i + 1;
        }
        Array2D { data, rows, cols }
    }

    pub fn as_slice(&self) -> (r: &[T])
        ensures
            r@ == self@,
    {
        self.data.as_slice()
    }

    pub fn rows(&self) -> (r: usize)
        ensures
            r == self.spec_rows(),
    {
        self.rows
    }

    pub fn cols(&self) -> (r: usize)
        ensures
            r == self.spec_cols(),
    {
        self.cols
    }

    /// How many cells hold `value`.
    pub fn count_value(&self, value: T) -> (r: usize)
        requires
            T::obeys_eq_spec(),
        ensures
            r == count_matching(self@, value),
    {
        let mut count: usize = 0;
        let mut i: usize = 0;
        let n = self.data.len();
        while i < n
            invariant
                T::obeys_eq_spec(),
                i <= n,
                n == self@.len(),
                0 <= count <= i,
                count == count_matching(self@.take(i as int), value),
            decreases n - i,
        {
            proof {
                assert(self@.take(i + 1).drop_last() =~= self@.take(i as int));
                assert(self@.take(i + 1).last() == self@[i as int]);
            }
            if self.data[i] == value {
                count = count + 1;
            }
            i = i + 1;
        }
        proof {
            assert(self@.take(n as int) =~= self@);
        }
        count
    }

    /// The cell at `(row, col)`.
    pub fn get(&self, row: usize, col: usize) -> (r: T)
        requires
            self.wf(),
            row < self.spec_rows(),
            col < self.spec_cols(),
        ensures
            r == self@[row * self.spec_cols() + col],
    {
        let n = self.data.len();
        proof {
            let rr = self.spec_rows();
            let cc = self.spec_cols();
            assert(row * cc + col < rr * cc) by (nonlinear_arith)
                requires
                    row < rr,
                    col < cc,
                    0 <= row,
                    0 <= col,
            ;
        }
        self.data[row * self.cols + col]
    }

    /// Overwrite the cell at `(row, col)`.
    pub fn set(&mut self, row: usize, col: usize, value: T)
        requires
            old(self).wf(),
            row < old(self).spec_rows(),
            col < old(self).spec_cols(),
        ensures
            final(self).wf(),
            final(self).spec_rows() == old(self).spec_rows(),
            final(self).spec_cols() == old(self).spec_cols(),
            final(self)@ == old(self)@.update(row * old(self).spec_cols() + col, value),
    {
        let n = self.data.len();
        proof {
            let rr = self.spec_rows();
            let cc = self.spec_cols();
            assert(row * cc + col < rr * cc) by (nonlinear_arith)
                requires
                    row < rr,
                    col < cc,
                    0 <= row,
                    0 <= col,
            ;
        }
        let idx = row * self.cols + col;
        self.data.set(idx, value);
    }
}

} // verus!
