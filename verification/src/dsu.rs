//! Disjoint set union with union by size and path compression.
use vstd::prelude::*;
use vstd::set_lib::{set_int_range, lemma_int_range, lemma_len_subset, lemma_set_disjoint_lens};

verus! {

/// The elements whose representative is `r`.
pub open spec fn members(roots: Seq<int>, r: int) -> Set<int> {
    Set::new(|z: int| 0 <= z < roots.len() && roots[z] == r)
}

/// The number of elements whose representative is `r`.
pub open spec fn class_size(roots: Seq<int>, r: int) -> nat {
    members(roots, r).len()
}

/// The representatives after the class of `from` joins the class of `into`.
pub open spec fn merged(roots: Seq<int>, from: int, into: int) -> Seq<int> {
    Seq::new(roots.len(), |z: int| if roots[z] == from { into } else { roots[z] })
}

/// `roots` is a valid representative map: every value is an element that represents itself.
pub open spec fn is_partition(roots: Seq<int>) -> bool {
    forall|z: int| 0 <= z < roots.len() ==> 0 <= #[trigger] roots[z] < roots.len() && roots[roots[z]] == roots[z]
}


/// The number of elements below `i` whose representative is `r`.
pub open spec fn count_class(roots: Seq<int>, r: int, i: int) -> nat
    decreases i,
{
    if i <= 0 {
        0
    } else {
        count_class(roots, r, i - 1) + if roots[i - 1] == r {
            1nat
        } else {
            0nat
        }
    }
}

/// The number of elements below `i` whose representative is less than `r`.
pub open spec fn count_below(roots: Seq<int>, r: int, i: int) -> nat
    decreases i,
{
    if i <= 0 {
        0
    } else {
        count_below(roots, r, i - 1) + if roots[i - 1] < r {
            1nat
        } else {
            0nat
        }
    }
}

/// The elements below `i` whose representative is `r`, in increasing order.
pub open spec fn class_seq(roots: Seq<int>, r: int, i: int) -> Seq<usize>
    decreases i,
{
    if i <= 0 {
        seq![]
    } else {
        class_seq(roots, r, i - 1) + if roots[i - 1] == r {
            seq![(i - 1) as usize]
        } else {
            seq![]
        }
    }
}

/// The non-empty classes whose representative is below `k`, in order of representative,
/// each listed in increasing order.
pub open spec fn classes(roots: Seq<int>, k: int) -> Seq<Seq<usize>>
    decreases k,
{
    if k <= 0 {
        seq![]
    } else {
        classes(roots, k - 1) + if count_class(roots, k - 1, roots.len() as int) > 0 {
            seq![class_seq(roots, k - 1, roots.len() as int)]
        } else {
            seq![]
        }
    }
}

proof fn lemma_count_below_step(roots: Seq<int>, r: int, i: int)
    requires
        0 <= i <= roots.len(),
    ensures
        count_below(roots, r + 1, i) == count_below(roots, r, i) + count_class(roots, r, i),
        count_below(roots, r, i) <= i,
        count_class(roots, r, i) <= i,
        class_seq(roots, r, i).len() == count_class(roots, r, i),
    decreases i,
{
    if i > 0 {
        lemma_count_below_step(roots, r, i - 1);
    }
}

proof fn lemma_count_below_mono(roots: Seq<int>, r1: int, r2: int, i: int)
    requires
        0 <= i <= roots.len(),
        r1 <= r2,
    ensures
        count_below(roots, r1, i) <= count_below(roots, r2, i),
    decreases i,
{
    if i > 0 {
        lemma_count_below_mono(roots, r1, r2, i - 1);
    }
}

proof fn lemma_count_class_mono(roots: Seq<int>, r: int, i: int, j: int)
    requires
        0 <= i <= j <= roots.len(),
    ensures
        count_class(roots, r, i) <= count_class(roots, r, j),
        i < j && roots[i] == r ==> count_class(roots, r, i) < count_class(roots, r, j),
    decreases j - i,
{
    if i < j {
        lemma_count_class_mono(roots, r, i, j - 1);
        if i < j - 1 {
            lemma_count_class_mono(roots, r, i + 1, j);
        }
    }
}

proof fn lemma_count_class_zero(roots: Seq<int>, r: int, i: int)
    requires
        0 <= i <= roots.len(),
        forall|z: int| 0 <= z < i ==> roots[z] != r,
    ensures
        count_class(roots, r, i) == 0,
    decreases i,
{
    if i > 0 {
        lemma_count_class_zero(roots, r, i - 1);
    }
}

proof fn lemma_count_below_zero(roots: Seq<int>, i: int)
    requires
        0 <= i <= roots.len(),
        forall|z: int| 0 <= z < roots.len() ==> 0 <= #[trigger] roots[z] < roots.len(),
    ensures
        count_below(roots, 0, i) == 0,
    decreases i,
{
    if i > 0 {
        lemma_count_below_zero(roots, i - 1);
    }
}

proof fn lemma_count_below_all(roots: Seq<int>, i: int)
    requires
        0 <= i <= roots.len(),
        forall|z: int| 0 <= z < roots.len() ==> 0 <= #[trigger] roots[z] < roots.len(),
    ensures
        count_below(roots, roots.len() as int, i) == i,
    decreases i,
{
    if i > 0 {
        lemma_count_below_all(roots, i - 1);
    }
}

proof fn lemma_members_finite(roots: Seq<int>, r: int)
    ensures
        members(roots, r).finite(),
        members(roots, r).len() <= roots.len(),
{
    lemma_int_range(0, roots.len() as int);
    lemma_len_subset(members(roots, r), set_int_range(0, roots.len() as int));
}

/// Joining the classes of `x` and `y` (either into the other) puts `x` and `y` in one class,
/// keeps together what was together, keeps apart every other pair of classes, leaves a valid
/// partition, and gives the joined class the sum of the two sizes.
pub proof fn lemma_merge_joins(roots: Seq<int>, x: int, y: int, from: int, into: int)
    requires
        is_partition(roots),
        0 <= x < roots.len(),
        0 <= y < roots.len(),
        roots[x] != roots[y],
        (from == roots[x] && into == roots[y]) || (from == roots[y] && into == roots[x]),
    ensures
        merged(roots, from, into)[x] == merged(roots, from, into)[y],
        is_partition(merged(roots, from, into)),
        forall|z: int, w: int|
            0 <= z < roots.len() && 0 <= w < roots.len() && #[trigger] roots[z] == #[trigger] roots[w]
                ==> merged(roots, from, into)[z] == merged(roots, from, into)[w],
        forall|z: int, w: int|
            0 <= z < roots.len() && 0 <= w < roots.len() && roots[z] != roots[w] && !(roots[z] == from
                && roots[w] == into) && !(roots[z] == into && roots[w] == from) ==> #[trigger] merged(
                roots,
                from,
                into,
            )[z] != #[trigger] merged(roots, from, into)[w],
        class_size(merged(roots, from, into), into) == class_size(roots, from) + class_size(roots, into),
{
    let m = merged(roots, from, into);
    assert(is_partition(m)) by {
        assert forall|z: int| 0 <= z < m.len() implies 0 <= #[trigger] m[z] < m.len() && m[m[z]] == m[z] by {
            assert(roots[into] == into);
            assert(roots[from] == from);
        }
    }
    assert(members(m, into) =~= members(roots, from).union(members(roots, into)));
    lemma_members_finite(roots, from);
    lemma_members_finite(roots, into);
    lemma_set_disjoint_lens(members(roots, from), members(roots, into));
}

/// Disjoint set union over the elements `0..n`.
///
/// `parent_or_size[x]` is the parent of `x`, or minus the size of the class when `x` is a root.
pub struct Dsu {
    size: usize,
    parent_or_size: Vec<i32>,
    roots: Ghost<Seq<int>>,
    rank: Ghost<Seq<nat>>,
}

impl View for Dsu {
    type V = Seq<int>;

    /// The representative of each element.
    closed spec fn view(&self) -> Seq<int> {
        self.roots@
    }
}

impl Dsu {
    pub closed spec fn wf(&self) -> bool {
        let n = self.size as int;
        let par = self.parent_or_size@;
        let roots = self.roots@;
        let rank = self.rank@;
        &&& par.len() == n
        &&& roots.len() == n
        &&& rank.len() == n
        &&& n <= i32::MAX
        &&& is_partition(roots)
        &&& forall|x: int| 0 <= x < n ==> ((#[trigger] par[x] < 0) <==> roots[x] == x)
        &&& forall|x: int|
            0 <= x < n && #[trigger] par[x] >= 0 ==> par[x] < n && roots[par[x] as int] == roots[x]
                && rank[par[x] as int] > rank[x]
        &&& forall|x: int| 0 <= x < n && #[trigger] roots[x] != x ==> rank[roots[x]] > rank[x]
        &&& forall|x: int| 0 <= x < n && #[trigger] roots[x] == x ==> -par[x] == class_size(roots, x)
    }

    /// A valid union-find holds a partition: every element's representative is an element that
    /// represents itself.
    pub proof fn lemma_wf_partition(&self)
        requires
            self.wf(),
        ensures
            is_partition(self@),
            self@.len() == self.len_spec(),
    {
    }

    /// `n` singleton classes.
    pub fn new(n: usize) -> (r: Self)
        requires
            n <= i32::MAX,
        ensures
            r.wf(),
            r@ == Seq::new(n as nat, |i: int| i),
    {
        let parent_or_size = vec![-1i32; n];
        let ghost roots = Seq::new(n as nat, |i: int| i);
        let ghost rank = Seq::new(n as nat, |i: int| 0nat);
        proof {
            assert forall|x: int| 0 <= x < n && #[trigger] roots[x] == x implies -parent_or_size@[x]
                == class_size(roots, x) by {
                assert(members(roots, x) =~= set![x]);
            }
        }
        Dsu { size: n, parent_or_size, roots: Ghost(roots), rank: Ghost(rank) }
    }

    /// A bound on the length of the path from `x` to its root.
    pub closed spec fn depth_bound(&self, x: int) -> int {
        self.rank@[self.roots@[x]] - self.rank@[x]
    }

    /// The number of elements.
    pub closed spec fn len_spec(&self) -> nat {
        self.size as nat
    }

    /// The representative of `x`'s class; compresses the path from `x`.
    pub fn find(&mut self, x: usize) -> (r: usize)
        requires
            old(self).wf(),
            x < old(self)@.len(),
        ensures
            final(self).wf(),
            final(self)@ == old(self)@,
            r == old(self)@[x as int],
            r < old(self)@.len(),
            old(self)@[r as int] == r,
        decreases old(self).depth_bound(x as int),
    {
        if self.parent_or_size[x] < 0 {
            return x;
        }
        let p = self.parent_or_size[x] as usize;
        let root = self.find(p);
        let ghost mid = self.parent_or_size@;
        self.parent_or_size.set(x, root as i32);
        proof {
            let par = self.parent_or_size@;
            let roots = self.roots@;
            let rank = self.rank@;
            let n = self.size as int;
            assert forall|z: int| 0 <= z < n implies ((#[trigger] par[z] < 0) <==> roots[z] == z) by {
                if z != x {
                    assert(mid[z] < 0 <==> roots[z] == z);
                }
            }
            assert forall|z: int| 0 <= z < n && #[trigger] par[z] >= 0 implies par[z] < n && roots[par[z] as int]
                == roots[z] && rank[par[z] as int] > rank[z] by {
                if z != x {
                    assert(mid[z] >= 0);
                }
            }
            assert forall|z: int| 0 <= z < n && #[trigger] roots[z] == z implies -par[z] == class_size(
                roots,
                z,
            ) by {
                assert(mid[z] < 0);
            }
        }
        root
    }

    /// Joins the classes of `x` and `y`; the root of the larger class (of `x`'s on a tie)
    /// becomes the root of the union and is returned.
    pub fn union(&mut self, x: usize, y: usize) -> (r: usize)
        requires
            old(self).wf(),
            x < old(self)@.len(),
            y < old(self)@.len(),
        ensures
            final(self).wf(),
            ({
                let rx = old(self)@[x as int];
                let ry = old(self)@[y as int];
                let big = if class_size(old(self)@, rx) < class_size(old(self)@, ry) {
                    ry
                } else {
                    rx
                };
                let small = if big == rx {
                    ry
                } else {
                    rx
                };
                if rx == ry {
                    r == rx && final(self)@ == old(self)@
                } else {
                    r == big && final(self)@ == merged(old(self)@, small, big)
                }
            }),
    {
        let (r, _merged) = self.link(x, y);
        r
    }

    /// Like `union`, and calls `f(new_root, absorbed_root)` when two classes were joined.
    pub fn union_with<F: FnMut(usize, usize)>(&mut self, x: usize, y: usize, mut f: F) -> (r: usize)
        requires
            old(self).wf(),
            x < old(self)@.len(),
            y < old(self)@.len(),
            forall|a: usize, b: usize| #[trigger] call_requires(f, (a, b)),
        ensures
            final(self).wf(),
            ({
                let rx = old(self)@[x as int];
                let ry = old(self)@[y as int];
                let big = if class_size(old(self)@, rx) < class_size(old(self)@, ry) {
                    ry
                } else {
                    rx
                };
                let small = if big == rx {
                    ry
                } else {
                    rx
                };
                if rx == ry {
                    r == rx && final(self)@ == old(self)@
                } else {
                    r == big && final(self)@ == merged(old(self)@, small, big) && call_ensures(
                        f,
                        (big as usize, small as usize),
                        (),
                    )
                }
            }),
    {
        let (r, absorbed) = self.link(x, y);
        match absorbed {
            Some(small) => {
                f(r, small);
            },
            None => {},
        }
        r
    }

    /// Shared body of `union` and `union_with`: returns the new root and the absorbed root.
    fn link(&mut self, x: usize, y: usize) -> (res: (usize, Option<usize>))
        requires
            old(self).wf(),
            x < old(self)@.len(),
            y < old(self)@.len(),
        ensures
            final(self).wf(),
            ({
                let rx = old(self)@[x as int];
                let ry = old(self)@[y as int];
                let big = if class_size(old(self)@, rx) < class_size(old(self)@, ry) {
                    ry
                } else {
                    rx
                };
                let small = if big == rx {
                    ry
                } else {
                    rx
                };
                if rx == ry {
                    res.0 == rx && res.1 is None && final(self)@ == old(self)@
                } else {
                    res.0 == big && res.1 == Some(small as usize) && final(self)@ == merged(
                        old(self)@,
                        small,
                        big,
                    )
                }
            }),
    {
        let mut root_x = self.find(x);
        let mut root_y = self.find(y);
        if root_x == root_y {
            return (root_x, None);
        }
        let ghost roots = self.roots@;
        let ghost rank = self.rank@;
        let ghost n = self.size as int;
        proof {
            assert(self.parent_or_size@[root_x as int] < 0);
            assert(self.parent_or_size@[root_y as int] < 0);
            lemma_members_finite(roots, root_x as int);
            lemma_members_finite(roots, root_y as int);
        }
        if -self.parent_or_size[root_x] < -self.parent_or_size[root_y] {
            let t = root_x;
            root_x = root_y;
            root_y = t;
        }
        let ghost rx = root_x as int;
        let ghost ry = root_y as int;
        let ghost new_roots = merged(roots, ry, rx);
        proof {
            assert(members(roots, rx).disjoint(members(roots, ry)));
            lemma_set_disjoint_lens(members(roots, rx), members(roots, ry));
            assert(members(new_roots, rx) =~= members(roots, rx) + members(roots, ry));
            lemma_members_finite(new_roots, rx);
        }
        let sx = self.parent_or_size[root_x];
        let sy = self.parent_or_size[root_y];
        self.parent_or_size.set(root_x, sx + sy);
        self.parent_or_size.set(root_y, root_x as i32);
        let ghost new_rank = if rank[rx] > rank[ry] {
            rank
        } else {
            rank.update(rx, rank[ry] + 1)
        };
        self.roots = Ghost(new_roots);
        self.rank = Ghost(new_rank);
        proof {
            let par = self.parent_or_size@;
            assert forall|z: int| 0 <= z < n implies 0 <= #[trigger] new_roots[z] < n && new_roots[new_roots[z]]
                == new_roots[z] by {
                assert(0 <= roots[z] < n);
                assert(roots[roots[z]] == roots[z]);
            }
            assert forall|z: int| 0 <= z < n implies ((#[trigger] par[z] < 0) <==> new_roots[z] == z) by {
                assert(roots[z] == z <==> old(self).parent_or_size@[z] < 0);
            }
            assert forall|z: int| 0 <= z < n && #[trigger] par[z] >= 0 implies par[z] < n && new_roots[par[z] as int]
                == new_roots[z] && new_rank[par[z] as int] > new_rank[z] by {
                if z != ry {
                    assert(old(self).parent_or_size@[z] >= 0);
                    assert(roots[z] != z);
                    assert(rank[roots[z]] > rank[z]);
                }
            }
            assert forall|z: int| 0 <= z < n && #[trigger] new_roots[z] != z implies new_rank[new_roots[z]]
                > new_rank[z] by {
                if roots[z] == ry {
                    if z != ry {
                        assert(rank[ry] > rank[z]);
                    }
                } else {
                    assert(roots[z] != z);
                }
            }
            assert forall|z: int| 0 <= z < n && #[trigger] new_roots[z] == z implies -par[z] == class_size(
                new_roots,
                z,
            ) by {
                if z != rx {
                    assert(roots[z] == z);
                    assert(members(new_roots, z) =~= members(roots, z));
                }
            }
            assert(new_roots == merged(old(self)@, ry, rx));
        }
        (root_x, Some(root_y))
    }

    /// The size of `x`'s class.
    pub fn size(&mut self, x: usize) -> (r: usize)
        requires
            old(self).wf(),
            x < old(self)@.len(),
        ensures
            final(self).wf(),
            final(self)@ == old(self)@,
            r == class_size(old(self)@, old(self)@[x as int]),
    {
        let root = self.find(x);
        proof {
            assert(self.roots@[root as int] == root);
            lemma_members_finite(self.roots@, root as int);
        }
        (-self.parent_or_size[root]) as usize
    }

    /// Whether `x` and `y` are in the same class.
    pub fn same(&mut self, x: usize, y: usize) -> (r: bool)
        requires
            old(self).wf(),
            x < old(self)@.len(),
            y < old(self)@.len(),
        ensures
            final(self).wf(),
            final(self)@ == old(self)@,
            r == (old(self)@[x as int] == old(self)@[y as int]),
    {
        let a = self.find(x);
        let b = self.find(y);
        a == b
    }
    /// All classes, in order of representative, each as the increasing list of its elements.
    pub fn groups(&mut self) -> (res: Vec<Vec<usize>>)
        requires
            old(self).wf(),
        ensures
            final(self).wf(),
            final(self)@ == old(self)@,
            res@.len() == classes(old(self)@, old(self)@.len() as int).len(),
            forall|g: int|
                0 <= g < res@.len() ==> #[trigger] res@[g]@ == classes(old(self)@, old(self)@.len() as int)[g],
    {
        let n = self.size;
        let ghost roots = self.roots@;
        let mut group_size = vec![0usize; n];
        let mut roots_buf = vec![0usize; n];
        for i in 0..n
            invariant
                self.wf(),
                self.roots@ == roots,
                self.size == n,
                roots.len() == n,
                group_size@.len() == n,
                roots_buf@.len() == n,
                forall|z: int| 0 <= z < i ==> roots_buf@[z] == roots[z],
                forall|r: int| 0 <= r < n ==> #[trigger] group_size@[r] == count_class(roots, r, i as int),
        {
            let root = self.find(i);
            roots_buf.set(i, root);
            proof {
                lemma_count_class_mono(roots, root as int, i as int, n as int);
                lemma_count_class_mono(roots, root as int, i as int + 1, n as int);
                lemma_count_below_step(roots, root as int, n as int);
                lemma_count_below_step(roots, root as int, i as int);
            }
            let c = group_size[root];
            group_size.set(root, c + 1);
        }
        let mut offsets = vec![0usize; n + 1];
        proof {
            lemma_count_below_zero(roots, n as int);
        }
        for i in 0..n
            invariant
                roots.len() == n,
                is_partition(roots),
                offsets@.len() == n + 1,
                group_size@.len() == n,
                forall|r: int| 0 <= r < n ==> #[trigger] group_size@[r] == count_class(roots, r, n as int),
                forall|r: int| 0 <= r <= i ==> #[trigger] offsets@[r] == count_below(roots, r, n as int),
        {
            proof {
                lemma_count_below_step(roots, i as int, n as int);
                lemma_count_below_step(roots, i as int + 1, n as int);
            }
            offsets.set(i + 1, offsets[i] + group_size[i]);
        }
        proof {
            if n == 0 {
                assert(offsets@[0] == count_below(roots, 0, 0));
            }
        }
        let mut groups_flat = vec![0usize; n];
        let mut pts = offsets.clone();
        proof {
            assert forall|r: int| 0 <= r < n + 1 implies pts@[r] == offsets@[r] by {
                assert(vstd::pervasive::cloned(offsets@[r], pts@[r]));
            }
            lemma_count_below_all(roots, n as int);
            assert forall|r: int| 0 <= r <= n implies #[trigger] offsets@[r] <= n by {
                lemma_count_below_mono(roots, r, n as int, n as int);
            }
            assert forall|r: int| 0 <= r < n implies groups_flat@.subrange(
                #[trigger] offsets@[r] as int,
                pts@[r] as int,
            ) == class_seq(roots, r, 0) by {
                assert(groups_flat@.subrange(offsets@[r] as int, pts@[r] as int) =~= seq![]);
            }
        }
        for i in 0..n
            invariant
                roots.len() == n,
                is_partition(roots),
                roots_buf@.len() == n,
                forall|z: int| 0 <= z < n ==> roots_buf@[z] == roots[z],
                offsets@.len() == n + 1,
                pts@.len() == n + 1,
                groups_flat@.len() == n,
                forall|r: int| 0 <= r <= n ==> #[trigger] offsets@[r] == count_below(roots, r, n as int),
                forall|r: int|
                    0 <= r < n ==> #[trigger] pts@[r] == offsets@[r] + count_class(roots, r, i as int),
                forall|r: int|
                    0 <= r < n ==> groups_flat@.subrange(#[trigger] offsets@[r] as int, pts@[r] as int)
                        == class_seq(roots, r, i as int),
        {
            let root = roots_buf[i];
            let ghost ro = root as int;
            let ghost before = groups_flat@;
            proof {
                assert(0 <= roots[i as int] < n);
                lemma_count_below_step(roots, ro, n as int);
                lemma_count_class_mono(roots, ro, i as int, n as int);
                lemma_count_below_all(roots, n as int);
                lemma_count_below_mono(roots, ro + 1, n as int, n as int);
            }
            let ghost old_pts = pts@;
            let pos = pts[root];
            groups_flat.set(pos, i);
            pts.set(root, pos + 1);
            proof {
                assert forall|r: int| 0 <= r < n implies groups_flat@.subrange(
                    #[trigger] offsets@[r] as int,
                    pts@[r] as int,
                ) == class_seq(roots, r, i + 1) by {
                    lemma_count_below_step(roots, r, n as int);
                    lemma_count_class_mono(roots, r, i as int, n as int);
                    if r == ro {
                        assert(groups_flat@.subrange(offsets@[r] as int, pts@[r] as int) =~= before.subrange(
                            offsets@[r] as int,
                            pos as int,
                        ).push(i));
                    } else {
                        lemma_count_below_mono(roots, r + 1, n as int, n as int);
                        assert(offsets@[r] <= pts@[r] <= n);
                        assert(pts@[r] == old_pts[r]);
                        if r < ro {
                            lemma_count_below_mono(roots, r + 1, ro, n as int);
                            assert(pts@[r] <= pos);
                        } else {
                            lemma_count_below_mono(roots, ro + 1, r, n as int);
                            assert(pos < offsets@[r]);
                        }
                        assert(groups_flat@.subrange(offsets@[r] as int, pts@[r] as int) =~= before.subrange(
                            offsets@[r] as int,
                            pts@[r] as int,
                        ));
                    }
                }
            }
        }
        proof {
            assert forall|r: int| 0 <= r < n implies (#[trigger] pts@[r]) == offsets@[r + 1] by {
                lemma_count_below_step(roots, r, n as int);
            }
        }
        let mut groups: Vec<Vec<usize>> = Vec::with_capacity(n);
        for i in 0..n
            invariant
                roots.len() == n,
                is_partition(roots),
                offsets@.len() == n + 1,
                groups_flat@.len() == n,
                group_size@.len() == n,
                forall|r: int| 0 <= r < n ==> #[trigger] group_size@[r] == count_class(roots, r, n as int),
                forall|r: int| 0 <= r <= n ==> #[trigger] offsets@[r] == count_below(roots, r, n as int),
                forall|r: int|
                    0 <= r < n ==> groups_flat@.subrange(#[trigger] offsets@[r] as int, offsets@[r + 1] as int)
                        == class_seq(roots, r, n as int),
                groups@.len() == classes(roots, i as int).len(),
                forall|g: int| 0 <= g < groups@.len() ==> #[trigger] groups@[g]@ == classes(roots, i as int)[g],
        {
            if group_size[i] > 0 {
                let l = offsets[i];
                let r = offsets[i + 1];
                proof {
                    lemma_count_below_step(roots, i as int, n as int);
                    lemma_count_below_all(roots, n as int);
                    lemma_count_below_mono(roots, i as int + 1, n as int, n as int);
                }
                let mut part: Vec<usize> = Vec::with_capacity(r - l);
                let mut j = l;
                while j < r
                    invariant
                        l <= j <= r <= n,
                        groups_flat@.len() == n,
                        part@ == groups_flat@.subrange(l as int, j as int),
                    decreases r - j,
                {
                    part.push(groups_flat[j]);
                    j = j + 1;
                    assert(part@ =~= groups_flat@.subrange(l as int, j as int));
                }
                groups.push(part);
            }
            proof {
                assert forall|g: int| 0 <= g < groups@.len() implies #[trigger] groups@[g]@ == classes(
                    roots,
                    i + 1,
                )[g] by {
                    assert(classes(roots, i + 1) == classes(roots, i as int) + if count_class(
                        roots,
                        i as int,
                        n as int,
                    ) > 0 {
                        seq![class_seq(roots, i as int, n as int)]
                    } else {
                        seq![]
                    });
                }
            }
        }
        groups
    }
}

} // verus!
