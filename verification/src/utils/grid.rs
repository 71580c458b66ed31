//! A grid of `h` rows and `w` columns stored row-major, with points given by any pair of
//! integers.
use vstd::prelude::*;
use vstd::std_specs::convert::TryFromSpecImpl;
use vstd::string::{StringExecFns, to_string_from_display_ensures};
use core::fmt::Display;

verus! {

/// A pair of integers read as a cell `[x, y]` (each converted by `as usize`).
pub trait Point {
    /// The cell.
    spec fn cell(&self) -> Seq<usize>;

    fn xy(&self) -> (r: [usize; 2])
        ensures
            r@ == self.cell(),
    ;
}

impl Point for (usize, usize) {
    open spec fn cell(&self) -> Seq<usize> {
        seq![self.0 as usize, self.1 as usize]
    }

    fn xy(&self) -> (r: [usize; 2]) {
        let r = [self.0 as usize, self.1 as usize];
        proof {
            assert(r@ =~= self.cell());
        }
        r
    }
}

impl Point for [usize; 2] {
    open spec fn cell(&self) -> Seq<usize> {
        seq![self@[0] as usize, self@[1] as usize]
    }

    fn xy(&self) -> (r: [usize; 2]) {
        let r = [self[0] as usize, self[1] as usize];
        proof {
            assert(r@ =~= self.cell());
        }
        r
    }
}

impl Point for (isize, isize) {
    open spec fn cell(&self) -> Seq<usize> {
        seq![self.0 as usize, self.1 as usize]
    }

    fn xy(&self) -> (r: [usize; 2]) {
        let r = [self.0 as usize, self.1 as usize];
        proof {
            assert(r@ =~= self.cell());
        }
        r
    }
}

impl Point for [isize; 2] {
    open spec fn cell(&self) -> Seq<usize> {
        seq![self@[0] as usize, self@[1] as usize]
    }

    fn xy(&self) -> (r: [usize; 2]) {
        let r = [self[0] as usize, self[1] as usize];
        proof {
            assert(r@ =~= self.cell());
        }
        r
    }
}

impl Point for (u8, u8) {
    open spec fn cell(&self) -> Seq<usize> {
        seq![self.0 as usize, self.1 as usize]
    }

    fn xy(&self) -> (r: [usize; 2]) {
        let r = [self.0 as usize, self.1 as usize];
        proof {
            assert(r@ =~= self.cell());
        }
        r
    }
}

impl Point for [u8; 2] {
    open spec fn cell(&self) -> Seq<usize> {
        seq![self@[0] as usize, self@[1] as usize]
    }

    fn xy(&self) -> (r: [usize; 2]) {
        let r = [self[0] as usize, self[1] as usize];
        proof {
            assert(r@ =~= self.cell());
        }
        r
    }
}

impl Point for (u16, u16) {
    open spec fn cell(&self) -> Seq<usize> {
        seq![self.0 as usize, self.1 as usize]
    }

    fn xy(&self) -> (r: [usize; 2]) {
        let r = [self.0 as usize, self.1 as usize];
        proof {
            assert(r@ =~= self.cell());
        }
        r
    }
}

impl Point for [u16; 2] {
    open spec fn cell(&self) -> Seq<usize> {
        seq![self@[0] as usize, self@[1] as usize]
    }

    fn xy(&self) -> (r: [usize; 2]) {
        let r = [self[0] as usize, self[1] as usize];
        proof {
            assert(r@ =~= self.cell());
        }
        r
    }
}

impl Point for (u32, u32) {
    open spec fn cell(&self) -> Seq<usize> {
        seq![self.0 as usize, self.1 as usize]
    }

    fn xy(&self) -> (r: [usize; 2]) {
        let r = [self.0 as usize, self.1 as usize];
        proof {
            assert(r@ =~= self.cell());
        }
        r
    }
}

impl Point for [u32; 2] {
    open spec fn cell(&self) -> Seq<usize> {
        seq![self@[0] as usize, self@[1] as usize]
    }

    fn xy(&self) -> (r: [usize; 2]) {
        let r = [self[0] as usize, self[1] as usize];
        proof {
            assert(r@ =~= self.cell());
        }
        r
    }
}

impl Point for (u64, u64) {
    open spec fn cell(&self) -> Seq<usize> {
        seq![self.0 as usize, self.1 as usize]
    }

    fn xy(&self) -> (r: [usize; 2]) {
        let r = [self.0 as usize, self.1 as usize];
        proof {
            assert(r@ =~= self.cell());
        }
        r
    }
}

impl Point for [u64; 2] {
    open spec fn cell(&self) -> Seq<usize> {
        seq![self@[0] as usize, self@[1] as usize]
    }

    fn xy(&self) -> (r: [usize; 2]) {
        let r = [self[0] as usize, self[1] as usize];
        proof {
            assert(r@ =~= self.cell());
        }
        r
    }
}

impl Point for (u128, u128) {
    open spec fn cell(&self) -> Seq<usize> {
        seq![self.0 as usize, self.1 as usize]
    }

    fn xy(&self) -> (r: [usize; 2]) {
        let r = [self.0 as usize, self.1 as usize];
        proof {
            assert(r@ =~= self.cell());
        }
        r
    }
}

impl Point for [u128; 2] {
    open spec fn cell(&self) -> Seq<usize> {
        seq![self@[0] as usize, self@[1] as usize]
    }

    fn xy(&self) -> (r: [usize; 2]) {
        let r = [self[0] as usize, self[1] as usize];
        proof {
            assert(r@ =~= self.cell());
        }
        r
    }
}

impl Point for (i8, i8) {
    open spec fn cell(&self) -> Seq<usize> {
        seq![self.0 as usize, self.1 as usize]
    }

    fn xy(&self) -> (r: [usize; 2]) {
        let r = [self.0 as usize, self.1 as usize];
        proof {
            assert(r@ =~= self.cell());
        }
        r
    }
}

impl Point for [i8; 2] {
    open spec fn cell(&self) -> Seq<usize> {
        seq![self@[0] as usize, self@[1] as usize]
    }

    fn xy(&self) -> (r: [usize; 2]) {
        let r = [self[0] as usize, self[1] as usize];
        proof {
            assert(r@ =~= self.cell());
        }
        r
    }
}

impl Point for (i16, i16) {
    open spec fn cell(&self) -> Seq<usize> {
        seq![self.0 as usize, self.1 as usize]
    }

    fn xy(&self) -> (r: [usize; 2]) {
        let r = [self.0 as usize, self.1 as usize];
        proof {
            assert(r@ =~= self.cell());
        }
        r
    }
}

impl Point for [i16; 2] {
    open spec fn cell(&self) -> Seq<usize> {
        seq![self@[0] as usize, self@[1] as usize]
    }

    fn xy(&self) -> (r: [usize; 2]) {
        let r = [self[0] as usize, self[1] as usize];
        proof {
            assert(r@ =~= self.cell());
        }
        r
    }
}

impl Point for (i32, i32) {
    open spec fn cell(&self) -> Seq<usize> {
        seq![self.0 as usize, self.1 as usize]
    }

    fn xy(&self) -> (r: [usize; 2]) {
        let r = [self.0 as usize, self.1 as usize];
        proof {
            assert(r@ =~= self.cell());
        }
        r
    }
}

impl Point for [i32; 2] {
    open spec fn cell(&self) -> Seq<usize> {
        seq![self@[0] as usize, self@[1] as usize]
    }

    fn xy(&self) -> (r: [usize; 2]) {
        let r = [self[0] as usize, self[1] as usize];
        proof {
            assert(r@ =~= self.cell());
        }
        r
    }
}

impl Point for (i64, i64) {
    open spec fn cell(&self) -> Seq<usize> {
        seq![self.0 as usize, self.1 as usize]
    }

    fn xy(&self) -> (r: [usize; 2]) {
        let r = [self.0 as usize, self.1 as usize];
        proof {
            assert(r@ =~= self.cell());
        }
        r
    }
}

impl Point for [i64; 2] {
    open spec fn cell(&self) -> Seq<usize> {
        seq![self@[0] as usize, self@[1] as usize]
    }

    fn xy(&self) -> (r: [usize; 2]) {
        let r = [self[0] as usize, self[1] as usize];
        proof {
            assert(r@ =~= self.cell());
        }
        r
    }
}

impl Point for (i128, i128) {
    open spec fn cell(&self) -> Seq<usize> {
        seq![self.0 as usize, self.1 as usize]
    }

    fn xy(&self) -> (r: [usize; 2]) {
        let r = [self.0 as usize, self.1 as usize];
        proof {
            assert(r@ =~= self.cell());
        }
        r
    }
}

impl Point for [i128; 2] {
    open spec fn cell(&self) -> Seq<usize> {
        seq![self@[0] as usize, self@[1] as usize]
    }

    fn xy(&self) -> (r: [usize; 2]) {
        let r = [self[0] as usize, self[1] as usize];
        proof {
            assert(r@ =~= self.cell());
        }
        r
    }
}

/// The cell `p + d` with wrapping `usize` arithmetic, as `wrapping_add_signed` computes it.
pub open spec fn wrapped_step(p: Seq<usize>, d: Seq<isize>) -> Seq<usize> {
    seq![p[0].wrapping_add_signed(d[0]), p[1].wrapping_add_signed(d[1])]
}

/// The in-bounds cells among `p + d` for the directions of `dirs`, in order.
pub open spec fn neighbor_cells(p: Seq<usize>, dirs: Seq<Seq<isize>>, h: usize, w: usize) -> Seq<Seq<usize>>
    decreases dirs.len(),
{
    if dirs.len() == 0 {
        seq![]
    } else {
        let rest = neighbor_cells(p, dirs.drop_last(), h, w);
        let q = wrapped_step(p, dirs.last());
        if q[0] < h && q[1] < w {
            rest.push(q)
        } else {
            rest
        }
    }
}

/// A grid of `h` rows and `w` columns; the cell `(x, y)` is `inner[x * w + y]`.
#[derive(Debug, Clone, PartialEq, Eq)]
pub struct Grid<T> {
    pub h: usize,
    pub w: usize,
    pub inner: Vec<T>,
}

impl<T> Grid<T> {
    /// A grid with every cell a clone of `default`.
    pub fn new(h: usize, w: usize, default: T) -> (r: Self) where T: Clone
        requires
            h * w <= usize::MAX,
        ensures
            r.h == h,
            r.w == w,
            r.inner@.len() == h * w,
            forall|i: int| 0 <= i < r.inner@.len() ==> cloned::<T>(default, #[trigger] r.inner@[i]),
    {
        Self { h, w, inner: vec![default; h * w] }
    }

    /// Whether the point lies in the grid.
    pub fn in_bounds(&self, point: impl Point) -> (r: bool)
        ensures
            r == (point.cell()[0] < self.h && point.cell()[1] < self.w),
    {
        let p = point.xy();
        p[0] < self.h && p[1] < self.w
    }

    /// The in-bounds cells among `point + d` for the directions of `d`, moving with wrapping
    /// arithmetic.
    pub fn neighbors_custom<P: Point>(&self, point: P, d: &[[isize; 2]]) -> (r: Vec<[usize; 2]>)
        ensures
            r@.map_values(|e: [usize; 2]| e@) == neighbor_cells(
                point.cell(),
                d@.map_values(|x: [isize; 2]| x@),
                self.h,
                self.w,
            ),
    {
        let p = point.xy();
        let ghost dirs = d@.map_values(|x: [isize; 2]| x@);
        let mut out: Vec<[usize; 2]> = Vec::new();
        let mut i: usize = 0;
        while i < d.len()
            invariant
                i <= d@.len(),
                p@ == point.cell(),
                dirs == d@.map_values(|x: [isize; 2]| x@),
                out@.map_values(|e: [usize; 2]| e@) == neighbor_cells(
                    point.cell(),
                    dirs.subrange(0, i as int),
                    self.h,
                    self.w,
                ),
            decreases d@.len() - i,
        {
            let dir = d[i];
            let q = [p[0].wrapping_add_signed(dir[0]), p[1].wrapping_add_signed(dir[1])];
            let ghost before = out@;
            proof {
                assert(q@ =~= wrapped_step(point.cell(), dirs[i as int]));
                assert(dirs.subrange(0, i + 1).drop_last() =~= dirs.subrange(0, i as int));
            }
            if self.in_bounds(q) {
                out.push(q);
                proof {
                    assert(out@.map_values(|e: [usize; 2]| e@) =~= before.map_values(|e: [usize; 2]| e@).push(q@));
                }
            }
            i += 1;
        }
        proof {
            assert(dirs.subrange(0, d@.len() as int) =~= dirs);
        }
        out
    }

    /// The in-bounds cells among the four axis neighbours.
    pub fn neighbors<P: Point>(&self, point: P) -> (r: Vec<[usize; 2]>)
        ensures
            r@.map_values(|e: [usize; 2]| e@) == neighbor_cells(
                point.cell(),
                seq![seq![1isize, 0], seq![0isize, 1], seq![-1isize, 0], seq![0isize, -1isize]],
                self.h,
                self.w,
            ),
    {
        let d: [[isize; 2]; 4] = [[1, 0], [0, 1], [-1, 0], [0, -1]];
        proof {
            assert(d@.map_values(|x: [isize; 2]| x@) =~= seq![
                seq![1isize, 0],
                seq![0isize, 1],
                seq![-1isize, 0],
                seq![0isize, -1isize],
            ]);
        }
        self.neighbors_custom(point, d.as_slice())
    }

    /// The in-bounds cells among the eight neighbours.
    pub fn neighbors_8<P: Point>(&self, point: P) -> (r: Vec<[usize; 2]>)
        ensures
            r@.map_values(|e: [usize; 2]| e@) == neighbor_cells(
                point.cell(),
                seq![
                    seq![1isize, 0],
                    seq![1isize, 1],
                    seq![0isize, 1],
                    seq![-1isize, 1],
                    seq![-1isize, 0],
                    seq![-1isize, -1isize],
                    seq![0isize, -1isize],
                    seq![1isize, -1isize],
                ],
                self.h,
                self.w,
            ),
    {
        let d: [[isize; 2]; 8] = [[1, 0], [1, 1], [0, 1], [-1, 1], [-1, 0], [-1, -1], [0, -1], [1, -1]];
        proof {
            assert(d@.map_values(|x: [isize; 2]| x@) =~= seq![
                seq![1isize, 0],
                seq![1isize, 1],
                seq![0isize, 1],
                seq![-1isize, 1],
                seq![-1isize, 0],
                seq![-1isize, -1isize],
                seq![0isize, -1isize],
                seq![1isize, -1isize],
            ]);
        }
        self.neighbors_custom(point, d.as_slice())
    }
}

/// Rows of the length of the first row, flattened row after row; `Err(())` when a length
/// differs.  There must be a first row.
impl<T> TryFrom<Vec<Vec<T>>> for Grid<T> {
    type Error = ();

    fn try_from(value: Vec<Vec<T>>) -> (r: Result<Self, ()>)
        ensures
            value@.len() > 0 ==> ((forall|i: int| 0 <= i < value@.len() ==> #[trigger] value@[i]@.len() == value@[0]@.len())
                <==> r is Ok),
            r matches Ok(g) ==> g.h == value@.len() && g.w == value@[0]@.len() && g.inner@ == value@.map_values(
                |row: Vec<T>| row@,
            ).flatten(),
    {
        let h = value.len();
        if h == 0 {
            return Err(());
        }
        let w = value[0].len();
        let mut i: usize = 0;
        while i < h
            invariant
                i <= h,
                h == value@.len(),
                h > 0,
                w == value@[0]@.len(),
                forall|t: int| 0 <= t < i ==> #[trigger] value@[t]@.len() == w,
            decreases h - i,
        {
            if value[i].len() != w {
                return Err(());
            }
            i += 1;
        }
        let ghost rows = value@.map_values(|row: Vec<T>| row@);
        let mut inner: Vec<T> = Vec::new();
        let mut rest = value;
        let mut taken: Vec<Vec<T>> = Vec::new();
        proof {
            assert(rows.subrange(0, 0).flatten() =~= Seq::<T>::empty());
        }
        while rest.len() > 0
            invariant
                rest@.len() + taken@.len() == h,
                h == rows.len(),
                forall|t: int| 0 <= t < rest@.len() ==> #[trigger] rest@[t]@ == rows[t],
                forall|t: int| 0 <= t < taken@.len() ==> #[trigger] taken@[t]@ == rows[h - 1 - t],
            decreases rest@.len(),
        {
            let row = rest.pop().unwrap();
            taken.push(row);
        }
        while taken.len() > 0
            invariant
                taken@.len() <= h,
                h == rows.len(),
                forall|t: int| 0 <= t < taken@.len() ==> #[trigger] taken@[t]@ == rows[h - 1 - t],
                inner@ == rows.subrange(0, (h - taken@.len()) as int).flatten(),
            decreases taken@.len(),
        {
            let ghost j = (h - taken@.len()) as int;
            let mut row = taken.pop().unwrap();
            proof {
                assert(row@ == rows[j]);
                vstd::seq_lib::lemma_flatten_concat(rows.subrange(0, j), seq![rows[j]]);
                assert(rows.subrange(0, j) + seq![rows[j]] =~= rows.subrange(0, j + 1));
                let e = Seq::<Seq<T>>::empty();
                assert(e.flatten() =~= Seq::<T>::empty());
                assert(seq![rows[j]].drop_first() =~= e);
                assert(seq![rows[j]].flatten() =~= rows[j] + e.flatten());
            }
            inner.append(&mut row);
        }
        proof {
            assert(rows.subrange(0, h as int) =~= rows);
        }
        Ok(Grid { inner, h, w })
    }
}

/// `TryFrom` has no spec function of its own here: the `ensures` of `try_from` say what it gives.
impl<T> TryFromSpecImpl<Vec<Vec<T>>> for Grid<T> {
    open spec fn obeys_try_from_spec() -> bool {
        false
    }

    open spec fn try_from_spec(v: Vec<Vec<T>>) -> Result<Self, ()> {
        Err(())
    }
}


impl<P: Point, T> core::ops::Index<P> for Grid<T> {
    type Output = T;

    /// The cell at `index`, which must lie in the grid (and in `inner`).
    fn index(&self, index: P) -> (r: &T)
        ensures
            *r == self.inner@[index.cell()[0] * self.w + index.cell()[1]],
    {
        let c = index.xy();
        let _len = self.inner.len();
        proof {
            assert(c@[0] * self.w + c@[1] < self.inner@.len());
        }
        &self.inner[c[0] * self.w + c[1]]
    }
}

impl<P: Point, T> vstd::std_specs::core::IndexSpecImpl<P> for Grid<T> {
    open spec fn index_req(&self, index: &P) -> bool {
        &&& index.cell()[0] < self.h
        &&& index.cell()[1] < self.w
        &&& index.cell()[0] * self.w + index.cell()[1] < self.inner@.len()
    }
}


/// `x` is displayed as `t`.
pub open spec fn displays_as<T: Display>(x: T, t: Seq<char>) -> bool {
    exists|s: String| to_string_from_display_ensures::<T>(&x, s) && s@ == t
}

/// Each cell followed by a space.
pub open spec fn row_text(row: Seq<Seq<char>>) -> Seq<char>
    decreases row.len(),
{
    if row.len() == 0 {
        seq![]
    } else {
        row_text(row.drop_last()) + row.last() + seq![' ']
    }
}

/// Each row's text followed by a newline.
pub open spec fn rows_text(rows: Seq<Seq<Seq<char>>>) -> Seq<char>
    decreases rows.len(),
{
    if rows.len() == 0 {
        seq![]
    } else {
        rows_text(rows.drop_last()) + row_text(rows.last()) + seq!['\n']
    }
}

impl<T: Display> Grid<T> {
    /// `h` lines, each of `w` displayed values followed by a space and ended by a newline; the
    /// value in row `i`, column `j` is read from `inner[i * h + j]`.
    pub fn to_string(&self) -> (r: String)
        requires
            self.h == 0 || self.w == 0 || (self.h - 1) * self.h + (self.w - 1) < self.inner@.len(),
        ensures
            exists|texts: Seq<Seq<Seq<char>>>|
                #![trigger rows_text(texts)]
                texts.len() == self.h && (forall|i: int| 0 <= i < self.h ==> (#[trigger] texts[i]).len() == self.w) && (
                forall|i: int, j: int|
                    0 <= i < self.h && 0 <= j < self.w ==> displays_as(self.inner@[i * self.h + j], #[trigger] texts[i][j]))
                    && r@ == rows_text(texts),
    {
        let h = self.h;
        let w = self.w;
        let total = self.inner.len();
        let mut buf = String::new();
        let ghost mut texts: Seq<Seq<Seq<char>>> = seq![];
        let mut i: usize = 0;
        while i < h
            invariant
                h == self.h,
                w == self.w,
                total == self.inner@.len(),
                h == 0 || w == 0 || (h - 1) * h + (w - 1) < self.inner@.len(),
                i <= h,
                texts.len() == i,
                forall|t: int| 0 <= t < i ==> (#[trigger] texts[t]).len() == w,
                forall|t: int, j: int| 0 <= t < i && 0 <= j < w ==> displays_as(self.inner@[t * h + j], #[trigger] texts[t][j]),
                buf@ == rows_text(texts),
            decreases h - i,
        {
            let ghost mut row: Seq<Seq<char>> = seq![];
            let ghost start = buf@;
            let mut j: usize = 0;
            while j < w
                invariant
                    h == self.h,
                    w == self.w,
                    total == self.inner@.len(),
                    h == 0 || w == 0 || (h - 1) * h + (w - 1) < self.inner@.len(),
                    i < h,
                    j <= w,
                    row.len() == j,
                    forall|q: int| 0 <= q < j ==> displays_as(self.inner@[i * h + q], #[trigger] row[q]),
                    buf@ == start + row_text(row),
                decreases w - j,
            {
                proof {
                    assert(i * h + j <= (h - 1) * h + (w - 1)) by (nonlinear_arith)
                        requires
                            i < h,
                            j < w,
                    ;
                }
                let cell = self.inner[i * h + j].to_string();
                let ghost old_row = row;
                buf.append(cell.as_str());
                buf.append(" ");
                proof {
                    reveal_strlit(" ");
                    assert(" "@ =~= seq![' ']);
                    row = row.push(cell@);
                    assert(row.drop_last() =~= old_row);
                    assert(displays_as(self.inner@[i * h + j], cell@));
                    assert(buf@ =~= start + row_text(row));
                }
                j += 1;
            }
            let ghost old_texts = texts;
            buf.append("\n");
            proof {
                reveal_strlit("\n");
                assert("\n"@ =~= seq!['\n']);
                texts = texts.push(row);
                assert(texts.drop_last() =~= old_texts);
                assert(buf@ =~= rows_text(texts));
            }
            i += 1;
        }
        buf
    }
}

} // verus!
