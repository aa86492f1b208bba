//! A rectangular matrix of 32-bit integers stored row-major in one vector,
//! with element-wise addition. Printing a matrix is left to the caller.
use vstd::prelude::*;

verus! {

/// A `w` by `h` matrix; `data` holds the `w * h` elements row-major.
pub struct Matrix {
    pub w: usize,
    pub h: usize,
    pub data: Vec<i32>,
}

impl Matrix {
    /// The stored vector holds exactly one element per cell.
    pub open spec fn wf(self) -> bool {
        self.data@.len() == self.w * self.h
    }

    /// A `w` by `h` matrix with every element `init`.
    pub fn new(init: i32, w: usize, h: usize) -> (m: Matrix)
        requires
            w * h <= usize::MAX,
        ensures
            m.wf(),
            m.w == w,
            m.h == h,
            forall|i: int| 0 <= i < m.data@.len() ==> m.data@[i] == init,
    {
        let n: usize = w * h;
        let mut data: Vec<i32> = Vec::new();
        let mut k: usize = 0;
        while k < n
            invariant
                k <= n,
                data@.len() == k,
                forall|i: int| 0 <= i < k ==> data@[i] == init,
            decreases n - k,
        {
            data.push(init);
            k = k + 1;
        }
        Matrix { w, h, data }
    }

    /// The element-wise sum of two matrices of the same shape, each sum
    /// fitting the element width.
    pub fn add(&self, rhs: &Matrix) -> (m: Matrix)
        requires
            self.wf(),
            rhs.wf(),
            self.w == rhs.w,
            self.h == rhs.h,
            forall|i: int|
                0 <= i < self.data@.len() ==> i32::MIN as int <= #[trigger] self.data@[i]
                    + rhs.data@[i] <= i32::MAX as int,
        ensures
            m.wf(),
            m.w == self.w,
            m.h == self.h,
            forall|i: int|
                0 <= i < m.data@.len() ==> #[trigger] m.data@[i] == self.data@[i] + rhs.data@[i],
    {
        let n: usize = rhs.data.len();
        proof {
            assert(rhs.w * rhs.h == n as int);
        }
        let mut res = Matrix::new(0, rhs.w, rhs.h);
        let mut k: usize = 0;
        while k < self.data.len()
            invariant
                self.wf(),
                rhs.wf(),
                self.w == rhs.w,
                self.h == rhs.h,
                forall|i: int|
                    0 <= i < self.data@.len() ==> i32::MIN as int <= #[trigger] self.data@[i]
                        + rhs.data@[i] <= i32::MAX as int,
                res.w == self.w,
                res.h == self.h,
                res.data@.len() == self.data@.len(),
                k <= self.data@.len(),
                forall|i: int|
                    0 <= i < k ==> #[trigger] res.data@[i] == self.data@[i] + rhs.data@[i],
            decreases self.data@.len() - k,
        {
            let v: i32 = self.data[k] + rhs.data[k];
            res.data.set(k, v);
            k = k + 1;
        }
        res
    }
}

} // verus!
