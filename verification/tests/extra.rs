use cplib::algorithm::lis::LIS as BufferedLis;
use cplib::algorithm::shakutori::{Shakutori, ShakutoriOps};
use cplib::dsu::Dsu;
use cplib::grid::Grid;
use cplib::prim::{Int, IntN};
use cplib::utils::grid::{Grid as FlatGrid, Point};

#[test]
fn dsu_union_find_and_groups() {
    let mut d = Dsu::new(6);
    assert!(!d.same(0, 1));
    d.union(0, 1);
    d.union(2, 3);
    d.union(1, 3);
    assert!(d.same(0, 2));
    assert_eq!(d.size(3), 4);
    assert_eq!(d.size(5), 1);
    let root = d.find(0);
    assert_eq!(d.union(2, 0), root);
    assert_eq!(d.groups(), vec![vec![0, 1, 2, 3], vec![4], vec![5]]);
}

#[test]
fn dsu_union_with_reports_roots() {
    let mut d = Dsu::new(3);
    let mut seen = Vec::new();
    let r = d.union_with(0, 1, |big, small| seen.push((big, small)));
    assert_eq!(seen.len(), 1);
    assert_eq!(seen[0].0, r);
    d.union_with(0, 1, |_, _| panic!("already joined"));
    assert_eq!(d.size(1), 2);
}

#[test]
fn graph_grid_neighbors() {
    let g = Grid::new([2, 3], 0u8);
    assert_eq!(g.inner.len(), 6);
    assert!(g.in_bounds([1i32, 2]));
    assert!(!g.in_bounds((2usize, 0usize)));
    assert!(!g.in_bounds([-1i64, 0]));
    assert_eq!(g.neighbors([0usize, 0]), vec![[1, 0], [0, 1]]);
    assert_eq!(g.neighbors_indexed([1usize, 1]), vec![(1, [1, 2]), (2, [0, 1]), (3, [1, 0])]);
    assert_eq!(g.neighbors_8([0usize, 0]), vec![[1, 0], [1, 1], [0, 1]]);
    assert_eq!(g.step([1usize, 2], [0i32, 1]), None);
    assert_eq!(g.step([1usize, 2], [-1i32, -2]), Some([0, 0]));
    assert_eq!(g.neighbors_custom([0usize, 0], &[[1isize, 2], [0, 2]]), vec![[1, 2], [0, 2]]);
}

#[test]
fn graph_grid_try_from() {
    let g = Grid::try_from(vec![vec![1, 2, 3], vec![4, 5, 6]]).unwrap();
    assert_eq!(g.size, [2, 3]);
    assert_eq!(g.inner, vec![1, 2, 3, 4, 5, 6]);
    assert!(Grid::try_from(vec![vec![1], vec![2, 3]]).is_err());
    let e = Grid::<i32>::try_from(vec![]).unwrap();
    assert_eq!(e.size, [0, 0]);
}

#[test]
fn flat_grid_neighbors() {
    let g = FlatGrid::new(2, 2, '.');
    assert!(g.in_bounds((1usize, 1usize)));
    assert!(!g.in_bounds([-1i32, 0]));
    assert_eq!(g.neighbors((0usize, 0usize)), vec![[1, 0], [0, 1]]);
    assert_eq!(g.neighbors_8([1u8, 1]), vec![[0, 1], [0, 0], [1, 0]]);
    assert_eq!([3u8, 4].xy(), [3, 4]);
    assert!(FlatGrid::try_from(vec![vec!['a', 'b'], vec!['c']]).is_err());
    assert!(FlatGrid::<char>::try_from(vec![]).is_err());
}

#[test]
fn prim_conversions() {
    assert_eq!((-3i8).to_isize(), -3);
    assert_eq!(7u64.to_isize(), 7);
    assert_eq!([1u8, 2].to_ints(), [1, 2]);
    assert_eq!((3i64, -4i64).to_ints(), [3, -4]);
    assert_eq!((1u32, 2u32, 3u32).to_index(), [1, 2, 3]);
}

struct BoundedSum {
    a: Vec<u64>,
    limit: u64,
}

impl ShakutoriOps for BoundedSum {
    type State = u64;
    type Ans = usize;

    fn push_spec(&self, state: u64, r: usize) -> u64 {
        state + self.a[r]
    }

    fn pop_spec(&self, state: u64, l: usize) -> u64 {
        state - self.a[l]
    }

    fn check_spec(&self, state: u64, r: usize) -> bool {
        state + self.a[r] <= self.limit
    }

    fn upd_spec(&self, ans: usize, _state: u64, l: usize, r: usize) -> usize {
        ans + (r - l)
    }

    fn push(&self, state: u64, r: usize) -> u64 {
        state + self.a[r]
    }

    fn pop(&self, state: u64, l: usize) -> u64 {
        state - self.a[l]
    }

    fn check(&self, state: u64, r: usize) -> bool {
        state + self.a[r] <= self.limit
    }

    fn upd(&self, ans: &mut usize, _state: u64, l: usize, r: usize) {
        *ans += r - l;
    }
}

#[test]
fn shakutori_counts_windows() {
    let s = BoundedSum { a: vec![1, 2, 3, 4, 5], limit: 5 };
    assert_eq!(s.solve(5, 0, 0), 7);
    let t = BoundedSum { a: vec![9, 1, 9], limit: 5 };
    assert_eq!(t.solve(3, 0, 0), 1);
}

#[test]
fn second_lis_restore_gives_positions() {
    let a = [1, 5, 2, 3];
    assert_eq!(BufferedLis::lis(&a[..]), 3);
    assert_eq!(BufferedLis::lis_restore(&a[..]), vec![0, 2, 3]);
}

#[test]
fn grid_indexing() {
    let g = Grid::try_from(vec![vec![1, 2, 3], vec![4, 5, 6]]).unwrap();
    assert_eq!(g[[1usize, 2]], 6);
    assert_eq!(g[(0i32, 1i32)], 2);
    let f = FlatGrid::try_from(vec![vec!['a', 'b'], vec!['c', 'd']]).unwrap();
    assert_eq!(f[(1usize, 0usize)], 'c');
    assert_eq!(f[[0u8, 1]], 'b');
}

#[test]
fn grids_as_text() {
    let g = Grid::try_from(vec![vec![1, 2, 3], vec![4, 5, 6]]).unwrap();
    assert_eq!(g.to_string(), "1 2 3\n4 5 6");
    let f = FlatGrid::try_from(vec![vec!['a', 'b'], vec!['c', 'd']]).unwrap();
    assert_eq!(f.to_string(), "a b \nc d \n");
    let wide = FlatGrid::try_from(vec![vec![7, 8, 9]]).unwrap();
    assert_eq!(wide.to_string(), "7 8 9 \n");
}
