use cplib::rerooting_dp::{RerootingAlgebra, RerootingDP};

/// Sum of the distances to all vertices: a value is (vertices, sum of their distances).
struct DistanceSum;

impl RerootingAlgebra for DistanceSum {
    type V = (u64, u64);
    type E = u64;
    type N = ();

    fn wf(&self) -> bool {
        true
    }

    fn identity_spec(&self) -> (u64, u64) {
        (0, 0)
    }

    fn merge_spec(&self, a: (u64, u64), b: (u64, u64)) -> (u64, u64) {
        (a.0 + b.0, a.1 + b.1)
    }

    fn apply_edge_spec(&self, val: (u64, u64), edge: u64) -> (u64, u64) {
        (val.0, val.1 + val.0 * edge)
    }

    fn apply_node_spec(&self, val: (u64, u64), _node: ()) -> (u64, u64) {
        (val.0 + 1, val.1)
    }

    fn lemma_merge_laws(&self, _a: (u64, u64), _b: (u64, u64), _c: (u64, u64)) {}

    fn identity(&self) -> (u64, u64) {
        (0, 0)
    }

    fn merge(&self, a: &(u64, u64), b: &(u64, u64)) -> (u64, u64) {
        (a.0 + b.0, a.1 + b.1)
    }

    fn apply_edge(&self, val: &(u64, u64), edge: &u64) -> (u64, u64) {
        (val.0, val.1 + val.0 * edge)
    }

    fn apply_node(&self, val: &(u64, u64), _node: &()) -> (u64, u64) {
        (val.0 + 1, val.1)
    }
}

#[test]
fn distance_sums_on_a_path() {
    let mut dp = RerootingDP::new(vec![(); 3], DistanceSum);
    dp.add_edge(0, 1, 1);
    dp.add_edge(1, 2, 1);
    let ans = dp.solve();
    assert_eq!(ans, vec![(3, 3), (3, 2), (3, 3)]);
}

#[test]
fn weighted_distance_sums_on_a_tree() {
    // 0 - 1 (weight 2), 0 - 2 (weight 3), 2 - 3 (weight 1), edges added out of order
    let mut dp = RerootingDP::new(vec![(); 4], DistanceSum);
    dp.add_edge(2, 3, 1);
    dp.add_edge(0, 1, 2);
    dp.add_edge(2, 0, 3);
    let ans = dp.solve();
    let sums: Vec<u64> = ans.iter().map(|v| v.1).collect();
    // from 0: 2 + 3 + 4; from 1: 2 + 5 + 6; from 2: 3 + 5 + 1; from 3: 1 + 4 + 6
    assert_eq!(sums, vec![9, 13, 9, 11]);
    assert!(ans.iter().all(|v| v.0 == 4));
    // solving again gives the same answer
    assert_eq!(dp.solve(), ans);
}

#[test]
fn single_vertex() {
    let mut dp = RerootingDP::new(vec![()], DistanceSum);
    assert_eq!(dp.solve(), vec![(1, 0)]);
}
