//! Two-pointer sweep over the windows `[l, r)` that a predicate lets grow.
use vstd::prelude::*;

verus! {

/// The window operations of a two-pointer sweep, with what each of them computes.
pub trait ShakutoriOps {
    type State: Copy;
    type Ans;

    /// The state after `push`.
    spec fn push_spec(&self, state: Self::State, r: usize) -> Self::State;

    /// The state after `pop`.
    spec fn pop_spec(&self, state: Self::State, l: usize) -> Self::State;

    /// The answer of `check`.
    spec fn check_spec(&self, state: Self::State, r: usize) -> bool;

    /// The answer after `upd`.
    spec fn upd_spec(&self, ans: Self::Ans, state: Self::State, l: usize, r: usize) -> Self::Ans;

    /// Adds the element `r` to the window.
    fn push(&self, state: Self::State, r: usize) -> (s: Self::State)
        ensures
            s == self.push_spec(state, r),
    ;

    /// Removes the element `l` from the window.
    fn pop(&self, state: Self::State, l: usize) -> (s: Self::State)
        ensures
            s == self.pop_spec(state, l),
    ;

    /// Whether the element `r` may join the window.
    fn check(&self, state: Self::State, r: usize) -> (b: bool)
        ensures
            b == self.check_spec(state, r),
    ;

    /// Takes the window `[l, r)` into the answer.
    fn upd(&self, ans: &mut Self::Ans, state: Self::State, l: usize, r: usize)
        ensures
            *final(ans) == self.upd_spec(*old(ans), state, l, r),
    ;
}

/// The right end and the state after growing the window from `r` while `check` allows.
pub open spec fn grow<S: ShakutoriOps + ?Sized>(sk: &S, n: usize, r: usize, state: S::State) -> (
    usize,
    S::State,
)
    decreases n - r,
{
    if r < n && sk.check_spec(state, r) {
        grow(sk, n, (r + 1) as usize, sk.push_spec(state, r))
    } else {
        (r, state)
    }
}

/// The answer of the sweep from the left end `l`, with the window `[l, r)` in `state`.
pub open spec fn sweep<S: ShakutoriOps + ?Sized>(
    sk: &S,
    n: usize,
    l: usize,
    r: usize,
    state: S::State,
    ans: S::Ans,
) -> S::Ans
    decreases n - l,
{
    if l < n && l <= r <= n {
        let (r1, s1) = grow(sk, n, r, state);
        let ans1 = sk.upd_spec(ans, s1, l, r1);
        let (r2, s2) = if l == r1 {
            ((r1 + 1) as usize, sk.push_spec(s1, r1))
        } else {
            (r1, s1)
        };
        sweep(sk, n, (l + 1) as usize, r2, sk.pop_spec(s2, l), ans1)
    } else {
        ans
    }
}

/// The answer after `upd` takes the windows `(state, l, r)` of `ws` one after the other.
pub open spec fn upd_all<S: ShakutoriOps + ?Sized>(sk: &S, ans: S::Ans, ws: Seq<(S::State, usize, usize)>) -> S::Ans
    decreases ws.len(),
{
    if ws.len() == 0 {
        ans
    } else {
        upd_all(sk, sk.upd_spec(ans, ws[0].0, ws[0].1, ws[0].2), ws.drop_first())
    }
}

/// `ws` is what a sweep over the left ends `l..n` hands to `upd`: one window per left end, in
/// order; each window `[l, r)` (possibly empty) has grown as far as `check` allows, so `r` is `n`
/// or `check` refuses `r`; and the right ends never move left.
pub open spec fn sweep_windows<S: ShakutoriOps + ?Sized>(
    sk: &S,
    n: usize,
    l: usize,
    ws: Seq<(S::State, usize, usize)>,
) -> bool {
    &&& ws.len() == n - l
    &&& forall|i: int|
        0 <= i < ws.len() ==> {
            &&& (#[trigger] ws[i]).1 == l + i
            &&& ws[i].1 <= ws[i].2 <= n
            &&& (ws[i].2 == n || !sk.check_spec(ws[i].0, ws[i].2))
        }
    &&& forall|i: int, j: int| 0 <= i < j < ws.len() ==> (#[trigger] ws[i]).2 <= (#[trigger] ws[j]).2
}

/// Growing stops at `n` or where `check` refuses, never left of where it started.
pub proof fn lemma_grow<S: ShakutoriOps + ?Sized>(sk: &S, n: usize, r: usize, state: S::State)
    requires
        r <= n,
    ensures
        r <= grow(sk, n, r, state).0 <= n,
        grow(sk, n, r, state).0 == n || !sk.check_spec(grow(sk, n, r, state).1, grow(sk, n, r, state).0),
    decreases n - r,
{
    if r < n && sk.check_spec(state, r) {
        lemma_grow(sk, n, (r + 1) as usize, sk.push_spec(state, r));
    }
}

/// The sweep calls `upd` exactly once for each left end, in order, with the window grown as far
/// as `check` allows, empty windows included: its answer is `upd_all` over such windows.
pub proof fn lemma_sweep_windows<S: ShakutoriOps + ?Sized>(
    sk: &S,
    n: usize,
    l: usize,
    r: usize,
    state: S::State,
    ans: S::Ans,
)
    requires
        l <= r <= n,
    ensures
        exists|ws: Seq<(S::State, usize, usize)>|
            sweep_windows(sk, n, l, ws) && sweep(sk, n, l, r, state, ans) == upd_all(sk, ans, ws) && (ws.len() > 0
                ==> ws[0].2 >= r),
    decreases n - l,
{
    if l == n {
        let ws = Seq::<(S::State, usize, usize)>::empty();
        assert(sweep_windows(sk, n, l, ws) && sweep(sk, n, l, r, state, ans) == upd_all(sk, ans, ws));
    } else {
        let (r1, s1) = grow(sk, n, r, state);
        lemma_grow(sk, n, r, state);
        let ans1 = sk.upd_spec(ans, s1, l, r1);
        let (r2, s2) = if l == r1 {
            ((r1 + 1) as usize, sk.push_spec(s1, r1))
        } else {
            (r1, s1)
        };
        lemma_sweep_windows(sk, n, (l + 1) as usize, r2, sk.pop_spec(s2, l), ans1);
        let rest = choose|ws: Seq<(S::State, usize, usize)>|
            sweep_windows(sk, n, (l + 1) as usize, ws) && sweep(sk, n, (l + 1) as usize, r2, sk.pop_spec(s2, l), ans1)
                == upd_all(sk, ans1, ws) && (ws.len() > 0 ==> ws[0].2 >= r2);
        let ws = seq![(s1, l, r1)] + rest;
        assert(ws.drop_first() =~= rest);
        assert(ws[0] == (s1, l, r1));
        assert forall|i: int| 0 < i < ws.len() implies #[trigger] ws[i] == rest[i - 1] by {}
        assert forall|i: int, j: int| 0 <= i < j < ws.len() implies (#[trigger] ws[i]).2 <= (#[trigger] ws[j]).2 by {
            if i > 0 {
                assert(ws[i] == rest[i - 1]);
                assert(ws[j] == rest[j - 1]);
            } else {
                assert(ws[j] == rest[j - 1]);
                assert(rest[0].2 <= rest[j - 1].2);
            }
        }
        assert(sweep_windows(sk, n, l, ws));
        assert(sweep(sk, n, l, r, state, ans) == upd_all(sk, ans, ws));
    }
}

/// A two-pointer sweep.  For each left end `l` in turn the window is grown while `check` allows
/// the next element, the answer is updated with the window `[l, r)`, and the element `l` leaves.
/// An empty window takes one element first so that the left end can pass it.
pub trait Shakutori: ShakutoriOps {
    /// Runs the sweep over `0..n` and returns the answer.
    fn solve(&self, n: usize, init_state: Self::State, init_ans: Self::Ans) -> (ans: Self::Ans)
        ensures
            ans == sweep(self, n, 0, 0, init_state, init_ans),
            exists|ws: Seq<(Self::State, usize, usize)>|
                sweep_windows(self, n, 0, ws) && ans == upd_all(self, init_ans, ws),
    {
        let mut l: usize = 0;
        let mut r: usize = 0;
        let mut ans = init_ans;
        let mut state = init_state;
        while l < n
            invariant
                l <= r <= n,
                l < n ==> l <= r,
                sweep(self, n, l, r, state, ans) == sweep(self, n, 0, 0, init_state, init_ans),
            decreases n - l,
        {
            let ghost r0 = r;
            let ghost s0 = state;
            while r < n && self.check(state, r)
                invariant
                    l < n,
                    r0 <= r <= n,
                    grow(self, n, r, state) == grow(self, n, r0, s0),
                decreases n - r,
            {
                state = self.push(state, r);
                r += 1;
            }
            self.upd(&mut ans, state, l, r);
            if l == r {
                state = self.push(state, r);
                r += 1;
            }
            state = self.pop(state, l);
            l += 1;
        }
        proof {
            lemma_sweep_windows(self, n, 0, 0, init_state, init_ans);
        }
        ans
    }
}

impl<S: ShakutoriOps + ?Sized> Shakutori for S {
}

} // verus!
