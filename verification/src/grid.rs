//! A two-dimensional grid stored row-major, with moves by direction vectors.
use vstd::prelude::*;
use vstd::std_specs::convert::TryFromSpecImpl;
use crate::prim::IntN;
use crate::io::{join_with, displays_joined, line};
use core::fmt::Display;

verus! {

/// Every coordinate lies in `0..size` (with the size read as `isize`).
pub open spec fn within(coord: Seq<isize>, size: Seq<usize>) -> bool {
    forall|k: int| 0 <= k < coord.len() ==> 0 <= #[trigger] coord[k] && coord[k] < (size[k] as isize)
}

/// `p + d`, coordinate by coordinate.
pub open spec fn moved(p: Seq<isize>, d: Seq<isize>) -> Seq<isize> {
    Seq::new(p.len(), |k: int| (p[k] + d[k]) as isize)
}

/// The sum `p + d` stays within `isize` in every coordinate.
pub open spec fn fits_move(p: Seq<isize>, d: Seq<isize>) -> bool {
    forall|k: int| 0 <= k < p.len() ==> isize::MIN <= #[trigger] p[k] + d[k] <= isize::MAX
}

/// The coordinates as `usize` values.
pub open spec fn as_index(p: Seq<isize>) -> Seq<usize> {
    p.map_values(|c: isize| c as usize)
}

/// The in-bounds positions `p + d` for the directions `d` of `dirs`, in order, each with the
/// position of its direction in `dirs`.
pub open spec fn neighbor_list(p: Seq<isize>, dirs: Seq<Seq<isize>>, size: Seq<usize>) -> Seq<(usize, Seq<usize>)>
    decreases dirs.len(),
{
    if dirs.len() == 0 {
        seq![]
    } else {
        let rest = neighbor_list(p, dirs.drop_last(), size);
        let q = moved(p, dirs.last());
        if within(q, size) {
            rest.push(((dirs.len() - 1) as usize, as_index(q)))
        } else {
            rest
        }
    }
}

/// Whether `coord` lies in `0..size` in every dimension.
fn in_bounds<const N: usize>(coord: [isize; N], size: [usize; N]) -> (r: bool)
    ensures
        r == within(coord@, size@),
{
    let mut i: usize = 0;
    while i < N
        invariant
            i <= N,
            coord@.len() == N,
            size@.len() == N,
            forall|k: int| 0 <= k < i ==> 0 <= #[trigger] coord@[k] && coord@[k] < (size@[k] as isize),
        decreases N - i,
    {
        if !(coord[i] >= 0 && coord[i] < size[i] as isize) {
            return false;
        }
        i += 1;
    }
    true
}

/// A grid of `size[0]` rows and `size[1]` columns; the cell `(x, y)` is `inner[x * size[1] + y]`.
#[derive(Debug, Clone, PartialEq, Eq)]
pub struct Grid<T> {
    pub size: [usize; 2],
    pub inner: Vec<T>,
}

impl<T> Grid<T> {
    /// A grid of the given size with every cell a clone of `default`.
    pub fn new(size: [usize; 2], default: T) -> (r: Self) where T: Clone
        requires
            size[0] * size[1] <= usize::MAX,
        ensures
            r.size == size,
            r.inner@.len() == size[0] * size[1],
            forall|i: int| 0 <= i < r.inner@.len() ==> cloned::<T>(default, #[trigger] r.inner@[i]),
    {
        Self { size, inner: vec![default; size[0] * size[1]] }
    }

    /// Whether the point lies in the grid.
    pub fn in_bounds(&self, point: impl IntN<2>) -> (r: bool)
        ensures
            r == within(point.coords(), self.size@),
    {
        in_bounds(point.to_ints(), self.size)
    }

    /// The point one step from `point` in direction `d`, or `None` outside the grid.
    pub fn step(&self, point: impl IntN<2>, d: impl IntN<2>) -> (r: Option<[usize; 2]>)
        requires
            fits_move(point.coords(), d.coords()),
        ensures
            within(moved(point.coords(), d.coords()), self.size@) ==> (r matches Some(q) && q@ == as_index(
                moved(point.coords(), d.coords()),
            )),
            !within(moved(point.coords(), d.coords()), self.size@) ==> r is None,
    {
        let p = point.to_ints();
        let dd = d.to_ints();
        let nb = [p[0] + dd[0], p[1] + dd[1]];
        proof {
            assert(nb@ =~= moved(point.coords(), d.coords()));
        }
        if in_bounds(nb, self.size) {
            let q = [nb[0] as usize, nb[1] as usize];
            proof {
                assert(q@ =~= as_index(nb@));
            }
            Some(q)
        } else {
            None
        }
    }

    /// The in-bounds points one step from `point` in each direction of `d`, each with the
    /// position of its direction in `d`.
    pub fn neighbors_custom_indexed<P: IntN<2>, D: IntN<2> + Copy>(&self, point: P, d: &[D]) -> (r: Vec<(usize, [usize; 2])>)
        requires
            forall|i: int| 0 <= i < d@.len() ==> fits_move(point.coords(), #[trigger] d@[i].coords()),
        ensures
            r@.map_values(|e: (usize, [usize; 2])| (e.0, e.1@)) == neighbor_list(
                point.coords(),
                d@.map_values(|x: D| x.coords()),
                self.size@,
            ),
    {
        let p = point.to_ints();
        let ghost dirs = d@.map_values(|x: D| x.coords());
        let mut out: Vec<(usize, [usize; 2])> = Vec::new();
        let mut i: usize = 0;
        while i < d.len()
            invariant
                i <= d@.len(),
                p@ == point.coords(),
                dirs == d@.map_values(|x: D| x.coords()),
                forall|t: int| 0 <= t < d@.len() ==> fits_move(point.coords(), #[trigger] d@[t].coords()),
                out@.map_values(|e: (usize, [usize; 2])| (e.0, e.1@)) == neighbor_list(
                    point.coords(),
                    dirs.subrange(0, i as int),
                    self.size@,
                ),
            decreases d@.len() - i,
        {
            let dir = d[i].to_ints();
            let nb = [p[0] + dir[0], p[1] + dir[1]];
            proof {
                assert(fits_move(point.coords(), d@[i as int].coords()));
                assert(nb@ =~= moved(point.coords(), dirs[i as int]));
                assert(dirs.subrange(0, i + 1).drop_last() =~= dirs.subrange(0, i as int));
            }
            if in_bounds(nb, self.size) {
                let q = [nb[0] as usize, nb[1] as usize];
                proof {
                    assert(q@ =~= as_index(nb@));
                }
                out.push((i, q));
                proof {
                    assert(out@.map_values(|e: (usize, [usize; 2])| (e.0, e.1@)) =~= neighbor_list(
                        point.coords(),
                        dirs.subrange(0, i as int),
                        self.size@,
                    ).push((i, q@)));
                }
            }
            i += 1;
        }
        proof {
            assert(dirs.subrange(0, d@.len() as int) =~= dirs);
        }
        out
    }

    /// The in-bounds points one step from `point` in each direction of `d`.
    pub fn neighbors_custom<P: IntN<2>, D: IntN<2> + Copy>(&self, point: P, d: &[D]) -> (r: Vec<[usize; 2]>)
        requires
            forall|i: int| 0 <= i < d@.len() ==> fits_move(point.coords(), #[trigger] d@[i].coords()),
        ensures
            r@.map_values(|e: [usize; 2]| e@) == neighbor_list(
                point.coords(),
                d@.map_values(|x: D| x.coords()),
                self.size@,
            ).map_values(|e: (usize, Seq<usize>)| e.1),
    {
        let indexed = self.neighbors_custom_indexed(point, d);
        let ghost expected = neighbor_list(point.coords(), d@.map_values(|x: D| x.coords()), self.size@);
        let mut out: Vec<[usize; 2]> = Vec::new();
        let mut i: usize = 0;
        while i < indexed.len()
            invariant
                i <= indexed@.len(),
                indexed@.map_values(|e: (usize, [usize; 2])| (e.0, e.1@)) == expected,
                out@.map_values(|e: [usize; 2]| e@) == expected.subrange(0, i as int).map_values(
                    |e: (usize, Seq<usize>)| e.1,
                ),
            decreases indexed@.len() - i,
        {
            let (_, q) = indexed[i];
            let ghost before = out@;
            out.push(q);
            proof {
                assert(q == indexed@[i as int].1);
                assert(expected[i as int] == (indexed@[i as int].0, indexed@[i as int].1@));
                assert(out@.map_values(|e: [usize; 2]| e@) =~= before.map_values(|e: [usize; 2]| e@).push(q@));
                assert(expected.subrange(0, i + 1).map_values(|e: (usize, Seq<usize>)| e.1) =~= expected.subrange(
                    0,
                    i as int,
                ).map_values(|e: (usize, Seq<usize>)| e.1).push(expected[i as int].1));
                assert(out@.map_values(|e: [usize; 2]| e@) =~= expected.subrange(0, i + 1).map_values(
                    |e: (usize, Seq<usize>)| e.1,
                ));
            }
            i += 1;
        }
        proof {
            assert(expected.subrange(0, indexed@.len() as int) =~= expected);
        }
        out
    }

    /// The four axis directions: down, right, up, left.
    pub const D4: [[isize; 2]; 4] = [[1, 0], [0, 1], [-1, 0], [0, -1]];

    /// The four axis directions and the four diagonals, counter-clockwise from down.
    pub const D8: [[isize; 2]; 8] = [[1, 0], [1, 1], [0, 1], [-1, 1], [-1, 0], [-1, -1], [0, -1], [1, -1]];

    /// The in-bounds points among the four axis neighbours of `point`.
    pub fn neighbors<P: IntN<2>>(&self, point: P) -> (r: Vec<[usize; 2]>)
        requires
            point_moves(point.coords()),
        ensures
            r@.map_values(|e: [usize; 2]| e@) == neighbor_list(
                point.coords(),
                Self::D4@.map_values(|x: [isize; 2]| x.coords()),
                self.size@,
            ).map_values(|e: (usize, Seq<usize>)| e.1),
    {
        let d = Self::D4;
        proof {
            lemma_unit_moves(point.coords(), d@);
        }
        self.neighbors_custom(point, d.as_slice())
    }

    /// The in-bounds axis neighbours of `point`, each with its index in `D4`.
    pub fn neighbors_indexed<P: IntN<2>>(&self, point: P) -> (r: Vec<(usize, [usize; 2])>)
        requires
            point_moves(point.coords()),
        ensures
            r@.map_values(|e: (usize, [usize; 2])| (e.0, e.1@)) == neighbor_list(
                point.coords(),
                Self::D4@.map_values(|x: [isize; 2]| x.coords()),
                self.size@,
            ),
    {
        let d = Self::D4;
        proof {
            lemma_unit_moves(point.coords(), d@);
        }
        self.neighbors_custom_indexed(point, d.as_slice())
    }

    /// The in-bounds points among the eight neighbours of `point`.
    pub fn neighbors_8<P: IntN<2>>(&self, point: P) -> (r: Vec<[usize; 2]>)
        requires
            point_moves(point.coords()),
        ensures
            r@.map_values(|e: [usize; 2]| e@) == neighbor_list(
                point.coords(),
                Self::D8@.map_values(|x: [isize; 2]| x.coords()),
                self.size@,
            ).map_values(|e: (usize, Seq<usize>)| e.1),
    {
        let d = Self::D8;
        proof {
            lemma_unit_moves(point.coords(), d@);
        }
        self.neighbors_custom(point, d.as_slice())
    }

    /// The in-bounds neighbours of `point` among eight, each with its index in `D8`.
    pub fn neighbors_8_indexed<P: IntN<2>>(&self, point: P) -> (r: Vec<(usize, [usize; 2])>)
        requires
            point_moves(point.coords()),
        ensures
            r@.map_values(|e: (usize, [usize; 2])| (e.0, e.1@)) == neighbor_list(
                point.coords(),
                Self::D8@.map_values(|x: [isize; 2]| x.coords()),
                self.size@,
            ),
    {
        let d = Self::D8;
        proof {
            lemma_unit_moves(point.coords(), d@);
        }
        self.neighbors_custom_indexed(point, d.as_slice())
    }
}

/// A step of at most one in each coordinate stays within `isize`.
pub open spec fn point_moves(p: Seq<isize>) -> bool {
    p.len() == 2 && isize::MIN < p[0] < isize::MAX && isize::MIN < p[1] < isize::MAX
}

proof fn lemma_unit_moves(p: Seq<isize>, dirs: Seq<[isize; 2]>)
    requires
        point_moves(p),
        forall|i: int| 0 <= i < dirs.len() ==> -1 <= #[trigger] dirs[i]@[0] <= 1 && -1 <= dirs[i]@[1] <= 1,
    ensures
        forall|i: int| 0 <= i < dirs.len() ==> fits_move(p, #[trigger] dirs[i].coords()),
{
    assert forall|i: int| 0 <= i < dirs.len() implies fits_move(p, #[trigger] dirs[i].coords()) by {
        assert(-1 <= dirs[i]@[0] <= 1 && -1 <= dirs[i]@[1] <= 1);
    }
}

/// Rows of equal length, flattened row after row; `Err(())` when the lengths differ.
impl<T> TryFrom<Vec<Vec<T>>> for Grid<T> {
    type Error = ();

    fn try_from(value: Vec<Vec<T>>) -> (r: Result<Self, ()>)
        ensures
            (forall|i: int| 0 <= i < value@.len() ==> #[trigger] value@[i]@.len() == (if value@.len() == 0 {
                0
            } else {
                value@[0]@.len()
            })) <==> r is Ok,
            r matches Ok(g) ==> g.size@ == seq![value@.len() as usize, (if value@.len() == 0 { 0 } else { value@[0]@.len() }) as usize]
                && g.inner@ == value@.map_values(|row: Vec<T>| row@).flatten(),
    {
        let h = value.len();
        let w = if h == 0 { 0 } else { value[0].len() };
        let mut i: usize = 0;
        while i < h
            invariant
                i <= h,
                h == value@.len(),
                w == (if h == 0 { 0 } else { value@[0]@.len() }),
                forall|t: int| 0 <= t < i ==> #[trigger] value@[t]@.len() == w,
            decreases h - i,
        {
            if value[i].len() != w {
                return Err(());
            }
            i += 1;
        }
        let ghost rows = value@.map_values(|row: Vec<T>| row@);
        let mut inner: Vec<T> = Vec::new();
        let mut rest = value;
        proof {
            assert(rows.subrange(0, 0).flatten() =~= Seq::<T>::empty());
        }
        let mut taken: Vec<Vec<T>> = Vec::new();
        // rows are taken from the back, then appended front to back
        while rest.len() > 0
            invariant
                rest@.len() + taken@.len() == h,
                h == rows.len(),
                forall|t: int| 0 <= t < rest@.len() ==> #[trigger] rest@[t]@ == rows[t],
                forall|t: int| 0 <= t < taken@.len() ==> #[trigger] taken@[t]@ == rows[h - 1 - t],
            decreases rest@.len(),
        {
            let row = rest.pop().unwrap();
            taken.push(row);
        }
        while taken.len() > 0
            invariant
                taken@.len() <= h,
                h == rows.len(),
                forall|t: int| 0 <= t < taken@.len() ==> #[trigger] taken@[t]@ == rows[h - 1 - t],
                inner@ == rows.subrange(0, (h - taken@.len()) as int).flatten(),
            decreases taken@.len(),
        {
            let ghost j = (h - taken@.len()) as int;
            let mut row = taken.pop().unwrap();
            proof {
                assert(row@ == rows[j]);
                assert(rows.subrange(0, j + 1).drop_last() =~= rows.subrange(0, j));
                vstd::seq_lib::lemma_flatten_concat(rows.subrange(0, j), seq![rows[j]]);
                assert(rows.subrange(0, j) + seq![rows[j]] =~= rows.subrange(0, j + 1));
                let e = Seq::<Seq<T>>::empty();
                assert(e.flatten() =~= Seq::<T>::empty());
                assert(seq![rows[j]].drop_first() =~= e);
                assert(seq![rows[j]].flatten() =~= rows[j] + e.flatten());
            }
            inner.append(&mut row);
        }
        proof {
            assert(rows.subrange(0, h as int) =~= rows);
        }
        Ok(Grid { inner, size: [h, w] })
    }
}

/// `TryFrom` has no spec function of its own here: the `ensures` of `try_from` say what it gives.
impl<T> TryFromSpecImpl<Vec<Vec<T>>> for Grid<T> {
    open spec fn obeys_try_from_spec() -> bool {
        false
    }

    open spec fn try_from_spec(v: Vec<Vec<T>>) -> Result<Self, ()> {
        Err(())
    }
}


impl<P: IntN<2>, T> core::ops::Index<P> for Grid<T> {
    type Output = T;

    /// The cell at `index`, which must lie in the grid (and in `inner`).
    fn index(&self, index: P) -> (r: &T)
        ensures
            *r == self.inner@[(index.coords()[0] as usize) * self.size[1] + (index.coords()[1] as usize)],
    {
        let c = index.to_index();
        let _len = self.inner.len();
        proof {
            assert(c@[0] == index.coords()[0] as usize && c@[1] == index.coords()[1] as usize);
            assert(c@[0] * self.size[1] + c@[1] < self.inner@.len());
        }
        &self.inner[c[0] * self.size[1] + c[1]]
    }
}

impl<P: IntN<2>, T> vstd::std_specs::core::IndexSpecImpl<P> for Grid<T> {
    open spec fn index_req(&self, index: &P) -> bool {
        let x = index.coords()[0] as usize;
        let y = index.coords()[1] as usize;
        &&& x < self.size[0]
        &&& y < self.size[1]
        &&& x * self.size[1] + y < self.inner@.len()
    }
}


impl<T: Display> Grid<T> {
    /// The rows, each as its displayed cells separated by spaces, separated by newlines.
    pub fn to_string(&self) -> (r: String)
        requires
            self.size[0] * self.size[1] <= self.inner@.len(),
        ensures
            exists|lines: Seq<Seq<char>>|
                #![trigger join_with(lines, "\n"@)]
                lines.len() == self.size[0] && (forall|i: int|
                    0 <= i < self.size[0] ==> displays_joined(
                        self.inner@.subrange(i * self.size[1], i * self.size[1] + self.size[1]),
                        " "@,
                        #[trigger] lines[i],
                    )) && r@ == join_with(lines, "\n"@),
    {
        let h = self.size[0];
        let w = self.size[1];
        let cells = self.inner.as_slice();
        let total = cells.len();
        let mut buf = String::new();
        let ghost mut lines: Seq<Seq<char>> = seq![];
        let mut i: usize = 0;
        while i < h
            invariant
                h == self.size[0],
                w == self.size[1],
                cells@ == self.inner@,
                total == cells@.len(),
                h * w <= cells@.len(),
                i <= h,
                lines.len() == i,
                forall|t: int|
                    0 <= t < i ==> displays_joined(cells@.subrange(t * w, t * w + w), " "@, #[trigger] lines[t]),
                buf@ == join_with(lines, "\n"@),
            decreases h - i,
        {
            proof {
                vstd::arithmetic::mul::lemma_mul_inequality((i + 1) as int, h as int, w as int);
                assert((i + 1) * w == i * w + w) by (nonlinear_arith);
            }
            let row = line(vstd::slice::slice_subrange(cells, i * w, i * w + w));
            let ghost old_lines = lines;
            if i > 0 {
                buf.append("\n");
            }
            buf.append(row.as_str());
            proof {
                lines = lines.push(row@);
                assert(lines.drop_last() =~= old_lines);
                if i == 0 {
                    assert(buf@ =~= lines[0]);
                }
            }
            i += 1;
        }
        buf
    }
}

} // verus!
