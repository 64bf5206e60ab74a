use vstd::prelude::*;

verus! {

use crate::error::WarpError;
use crate::layout::{packed_bytes, scalars_to_bytes, WHostToDev, WScalars};

/// A padded device matrix: `cols` columns of `rows` logical entries each,
/// stored column-major with every column padded to `forced_rows` entries so
/// the column stride matches the shading language's layout rules (a
/// three-row column of 32-bit scalars strides four words).  Construction
/// rejects a stride smaller than the logical height; the padding entries
/// carry the fill value and no meaning.
pub struct WMat<T: WScalars> {
    cols: Vec<Vec<T>>,
    rows: usize,
    forced_rows: usize,
}

impl<T: WScalars> WMat<T> {
    /// The stored columns, padding entries included.
    pub closed spec fn spec_cols(self) -> Seq<Seq<T>> {
        self.cols@.map_values(|c: Vec<T>| c@)
    }

    /// The logical number of rows.
    pub closed spec fn spec_rows(self) -> int {
        self.rows as int
    }

    /// The padded number of rows, the column stride.
    pub closed spec fn spec_forced_rows(self) -> int {
        self.forced_rows as int
    }

    /// The matrix invariant: every column is one full stride long.
    pub open spec fn wf(self) -> bool {
        &&& self.spec_rows() <= self.spec_forced_rows()
        &&& forall|c: int|
            0 <= c < self.spec_cols().len() ==> (#[trigger] self.spec_cols()[c]).len()
                == self.spec_forced_rows()
    }

    /// The entry in column `x`, row `y`.
    pub open spec fn entry(self, x: int, y: int) -> T {
        self.spec_cols()[x][y]
    }

    /// A constant matrix; a stride below the logical height is rejected
    /// here, at construction.
    pub fn new(n_cols: usize, rows: usize, forced_rows: usize, fill: T) -> (r: Result<
        WMat<T>,
        WarpError,
    >)
        ensures
            (rows <= forced_rows) <==> r is Ok,
            r is Ok ==> {
                &&& r->Ok_0.wf()
                &&& r->Ok_0.spec_cols().len() == n_cols
                &&& r->Ok_0.spec_rows() == rows
                &&& r->Ok_0.spec_forced_rows() == forced_rows
                &&& forall|x: int, y: int|
                    0 <= x < n_cols && 0 <= y < forced_rows ==> #[trigger] r->Ok_0.entry(x, y)
                        == fill
            },
            r is Err ==> r->Err_0 == WarpError::ParameterOutOfRange,
    {
        if forced_rows < rows {
            return Err(WarpError::ParameterOutOfRange);
        }
        let mut cols: Vec<Vec<T>> = Vec::new();
        let mut x: usize = 0;
        while x < n_cols
            invariant
                x <= n_cols,
                cols@.len() == x,
                forall|c: int| 0 <= c < x ==> (#[trigger] cols@[c])@.len() == forced_rows,
                forall|c: int, y: int|
                    0 <= c < x && 0 <= y < forced_rows ==> #[trigger] cols@[c]@[y] == fill,
            decreases n_cols - x,
        {
            let mut col: Vec<T> = Vec::new();
            let mut y: usize = 0;
            while y < forced_rows
                invariant
                    y <= forced_rows,
                    col@.len() == y,
                    forall|q: int| 0 <= q < y ==> #[trigger] col@[q] == fill,
                decreases forced_rows - y,
            {
                col.push(fill);
                y += 1;
            }
            cols.push(col);
            x += 1;
        }
        Ok(WMat { cols, rows, forced_rows })
    }

    /// The number of columns.
    pub fn col_count(&self) -> (n: usize)
        ensures
            n == self.spec_cols().len(),
    {
        self.cols.len()
    }

    /// The logical number of rows.
    pub fn row_count(&self) -> (n: usize)
        ensures
            n == self.spec_rows(),
    {
        self.rows
    }

    /// Read the entry in column `x`, row `y`.
    pub fn get(&self, x: usize, y: usize) -> (v: T)
        requires
            self.wf(),
            x < self.spec_cols().len(),
            y < self.spec_rows(),
        ensures
            v == self.entry(x as int, y as int),
    {
        proof {
            assert(self.spec_cols()[x as int] == self.cols@[x as int]@);
            assert(self.spec_cols()[x as int].len() == self.spec_forced_rows());
        }
        self.cols[x][y]
    }

    /// Overwrite the entry in column `x`, row `y`.
    pub fn set(&mut self, x: usize, y: usize, v: T)
        requires
            old(self).wf(),
            x < old(self).spec_cols().len(),
            y < old(self).spec_rows(),
        ensures
            final(self).wf(),
            final(self).spec_rows() == old(self).spec_rows(),
            final(self).spec_forced_rows() == old(self).spec_forced_rows(),
            final(self).spec_cols().len() == old(self).spec_cols().len(),
            final(self).entry(x as int, y as int) == v,
            forall|c: int, q: int|
                0 <= c < old(self).spec_cols().len() && 0 <= q < old(self).spec_forced_rows() && !(c
                    == x && q == y) ==> #[trigger] final(self).entry(c, q) == old(self).entry(c, q),
    {
        proof {
            assert(old(self).spec_cols()[x as int] == old(self).cols@[x as int]@);
            assert(old(self).spec_cols()[x as int].len() == old(self).spec_forced_rows());
        }
        let mut col = self.cols.remove(x);
        col.set(y, v);
        self.cols.insert(x, col);
        proof {
            assert(self.cols@ =~= old(self).cols@.update(x as int, self.cols@[x as int]));
            assert forall|c: int| 0 <= c < self.spec_cols().len() implies (
            #[trigger] self.spec_cols()[c]) == if c == x as int {
                old(self).spec_cols()[c].update(y as int, v)
            } else {
                old(self).spec_cols()[c]
            } by {
                assert(self.spec_cols()[c] == self.cols@[c]@);
                assert(old(self).spec_cols()[c] == old(self).cols@[c]@);
            }
        }
    }

    /// Fill from column-major data: `data[x]` becomes column `x`, padded
    /// with `fill`.  Every column must have the same length and the stride
    /// must cover it.
    pub fn from_col_major(data: &Vec<Vec<T>>, rows: usize, forced_rows: usize, fill: T) -> (r:
        Result<WMat<T>, WarpError>)
        ensures
            r is Ok ==> {
                &&& r->Ok_0.wf()
                &&& r->Ok_0.spec_cols().len() == data@.len()
                &&& r->Ok_0.spec_rows() == rows
                &&& r->Ok_0.spec_forced_rows() == forced_rows
                &&& forall|x: int, y: int|
                    0 <= x < data@.len() && 0 <= y < rows ==> #[trigger] r->Ok_0.entry(x, y)
                        == data@[x]@[y]
            },
            r is Ok <==> (rows <= forced_rows && forall|x: int|
                0 <= x < data@.len() ==> (#[trigger] data@[x])@.len() == rows),
            r is Err ==> r->Err_0 == WarpError::ParameterOutOfRange,
    {
        if forced_rows < rows {
            return Err(WarpError::ParameterOutOfRange);
        }
        let n_cols = data.len();
        let mut cols: Vec<Vec<T>> = Vec::new();
        let mut x: usize = 0;
        while x < n_cols
            invariant
                x <= n_cols,
                n_cols == data@.len(),
                rows <= forced_rows,
                cols@.len() == x,
                forall|c: int| 0 <= c < x ==> (#[trigger] data@[c])@.len() == rows,
                forall|c: int| 0 <= c < x ==> (#[trigger] cols@[c])@.len() == forced_rows,
                forall|c: int, y: int|
                    0 <= c < x && 0 <= y < rows ==> #[trigger] cols@[c]@[y] == data@[c]@[y],
            decreases n_cols - x,
        {
            if data[x].len() != rows {
                proof {
                    assert((data@[x as int])@.len() != rows);
                }
                return Err(WarpError::ParameterOutOfRange);
            }
            let src = &data[x];
            let mut col: Vec<T> = Vec::new();
            let mut y: usize = 0;
            while y < forced_rows
                invariant
                    y <= forced_rows,
                    rows <= forced_rows,
                    src@.len() == rows,
                    col@.len() == y,
                    forall|q: int| 0 <= q < y && q < rows ==> #[trigger] col@[q] == src@[q],
                decreases forced_rows - y,
            {
                if y < rows {
                    col.push(src[y]);
                } else {
                    col.push(fill);
                }
                y += 1;
            }
            cols.push(col);
            x += 1;
        }
        Ok(WMat { cols, rows, forced_rows })
    }

    /// Fill from row-major data: `data[y]` holds row `y`, so entry
    /// `(x, y)` takes `data[y][x]`.
    pub fn from_row_major(data: &Vec<Vec<T>>, n_cols: usize, forced_rows: usize, fill: T) -> (r:
        Result<WMat<T>, WarpError>)
        ensures
            r is Ok ==> {
                &&& r->Ok_0.wf()
                &&& r->Ok_0.spec_cols().len() == n_cols
                &&& r->Ok_0.spec_rows() == data@.len()
                &&& r->Ok_0.spec_forced_rows() == forced_rows
                &&& forall|x: int, y: int|
                    0 <= x < n_cols && 0 <= y < data@.len() ==> #[trigger] r->Ok_0.entry(x, y)
                        == data@[y]@[x]
            },
            r is Ok <==> (data@.len() <= forced_rows && forall|y: int|
                0 <= y < data@.len() ==> (#[trigger] data@[y])@.len() == n_cols),
            r is Err ==> r->Err_0 == WarpError::ParameterOutOfRange,
    {
        let rows = data.len();
        if forced_rows < rows {
            return Err(WarpError::ParameterOutOfRange);
        }
        let mut y: usize = 0;
        while y < rows
            invariant
                y <= rows,
                rows == data@.len(),
                forall|q: int| 0 <= q < y ==> (#[trigger] data@[q])@.len() == n_cols,
            decreases rows - y,
        {
            if data[y].len() != n_cols {
                proof {
                    assert((data@[y as int])@.len() != n_cols);
                }
                return Err(WarpError::ParameterOutOfRange);
            }
            y += 1;
        }
        let mut cols: Vec<Vec<T>> = Vec::new();
        let mut x: usize = 0;
        while x < n_cols
            invariant
                x <= n_cols,
                rows == data@.len(),
                rows <= forced_rows,
                forall|q: int| 0 <= q < rows ==> (#[trigger] data@[q])@.len() == n_cols,
                cols@.len() == x,
                forall|c: int| 0 <= c < x ==> (#[trigger] cols@[c])@.len() == forced_rows,
                forall|c: int, q: int|
                    0 <= c < x && 0 <= q < rows ==> #[trigger] cols@[c]@[q] == data@[q]@[c],
            decreases n_cols - x,
        {
            let mut col: Vec<T> = Vec::new();
            let mut yy: usize = 0;
            while yy < forced_rows
                invariant
                    yy <= forced_rows,
                    x < n_cols,
                    rows <= forced_rows,
                    rows == data@.len(),
                    forall|q: int| 0 <= q < rows ==> (#[trigger] data@[q])@.len() == n_cols,
                    col@.len() == yy,
                    forall|q: int|
                        0 <= q < yy && q < rows ==> #[trigger] col@[q] == data@[q]@[x as int],
                decreases forced_rows - yy,
            {
                if yy < rows {
                    col.push(data[yy][x]);
                } else {
                    col.push(fill);
                }
                yy += 1;
            }
            cols.push(col);
            x += 1;
        }
        Ok(WMat { cols, rows, forced_rows })
    }
}

impl<T: WScalars> WHostToDev for WMat<T> {
    open spec fn encodable(&self) -> bool {
        self.wf()
    }

    /// Column-major, one word per entry, padding entries included: the
    /// packed image of the flattened columns.
    open spec fn spec_bytes(&self) -> Seq<u8> {
        packed_bytes(self.spec_cols().flatten())
    }

    fn bytes(&self) -> (b: Vec<u8>) {
        let mut flat: Vec<T> = Vec::new();
        let n_cols = self.cols.len();
        let mut x: usize = 0;
        proof {
            assert(self.spec_cols().take(0) =~= Seq::<Seq<T>>::empty());
            assert(self.spec_cols().take(0).flatten() =~= Seq::<T>::empty());
        }
        while x < n_cols
            invariant
                x <= n_cols,
                n_cols == self.spec_cols().len(),
                flat@ == self.spec_cols().take(x as int).flatten(),
            decreases n_cols - x,
        {
            let ghost before = self.spec_cols().take(x as int);
            let src = &self.cols[x];
            let mut y: usize = 0;
            let rows_here = src.len();
            while y < rows_here
                invariant
                    y <= rows_here,
                    rows_here == src@.len(),
                    flat@ == before.flatten() + src@.take(y as int),
                decreases rows_here - y,
            {
                flat.push(src[y]);
                proof {
                    assert(src@.take(y as int + 1) =~= src@.take(y as int).push(src@[y as int]));
                }
                y += 1;
            }
            proof {
                assert(src@.take(rows_here as int) =~= src@);
                before.lemma_flatten_push(src@);
                assert(self.spec_cols().take(x as int + 1) =~= before.push(src@));
            }
            x += 1;
        }
        proof {
            assert(self.spec_cols().take(n_cols as int) =~= self.spec_cols());
        }
        scalars_to_bytes(&flat)
    }
}

} // verus!
