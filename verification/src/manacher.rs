//! Manacher's algorithm: the radius of the longest odd palindrome centred at each position.
use vstd::prelude::*;
use vstd::laws_eq::obeys_concrete_eq;

verus! {

/// `s[i - k] == s[i + k]` for every `k < j`, with the window inside `s`.
pub open spec fn is_palindrome_at<T>(s: Seq<T>, i: int, j: int) -> bool {
    &&& 0 <= j <= i + 1
    &&& i + j <= s.len()
    &&& forall|k: int| 0 <= k < j ==> #[trigger] s[i - k] == s[i + k]
}

/// `j` is the largest palindrome radius at `i`: the palindrome of radius `j` fits and cannot
/// be extended.
pub open spec fn is_radius<T>(s: Seq<T>, i: int, j: int) -> bool {
    &&& is_palindrome_at(s, i, j)
    &&& (j == i + 1 || i + j == s.len() || s[i - j] != s[i + j])
}

/// A radius that fits and cannot be extended is the only one.
pub proof fn lemma_radius_unique<T>(s: Seq<T>, i: int, j1: int, j2: int)
    requires
        is_radius(s, i, j1),
        is_radius(s, i, j2),
    ensures
        j1 == j2,
{
    if j1 < j2 {
        assert(s[i - j1] == s[i + j1]);
    } else if j2 < j1 {
        assert(s[i - j2] == s[i + j2]);
    }
}

/// Inside a palindrome of radius `r` at `c`, the radius at `c + k` mirrors the radius at `c - k`
/// when the latter stays strictly inside.
proof fn lemma_mirror<T>(s: Seq<T>, c: int, r: int, k: int, a: int)
    requires
        is_palindrome_at(s, c, r),
        1 <= k <= c,
        is_radius(s, c - k, a),
        k + a < r,
    ensures
        is_radius(s, c + k, a),
{
    let p = c - k;
    let q = c + k;
    assert forall|t: int| 0 <= t < a implies #[trigger] s[q - t] == s[q + t] by {
        if k >= t {
            assert(s[c - (k - t)] == s[c + (k - t)]);
        } else {
            assert(s[c - (t - k)] == s[c + (t - k)]);
        }
        assert(s[c - (k + t)] == s[c + (k + t)]);
        assert(s[p - t] == s[p + t]);
    }
    if a < p + 1 && p + a < s.len() {
        assert(s[p - a] != s[p + a]);
        if k >= a {
            assert(s[c - (k - a)] == s[c + (k - a)]);
        } else {
            assert(s[c - (a - k)] == s[c + (a - k)]);
        }
        assert(s[c - (k + a)] == s[c + (k + a)]);
    }
}

/// `r[i]` is the radius of the longest odd-length palindrome centred at `i`:
/// `s[i - k] == s[i + k]` for all `k < r[i]`, and no longer one fits.
pub fn manacher<T: Eq>(s: &[T]) -> (ret: Vec<usize>)
    requires
        obeys_concrete_eq::<T>(),
    ensures
        ret@.len() == s@.len(),
        forall|i: int| 0 <= i < s@.len() ==> #[trigger] is_radius(s@, i, ret@[i] as int),
        forall|i: int|
            0 <= i < s@.len() ==> {
                &&& 1 <= #[trigger] ret@[i] <= i + 1
                &&& i + ret@[i] <= s@.len()
                &&& forall|k: int| 0 <= k < ret@[i] ==> #[trigger] s@[i - k] == s@[i + k]
                &&& (ret@[i] == i + 1 || i + ret@[i] == s@.len() || s@[i - ret@[i]] != s@[i + ret@[i]])
            },
{
    proof {
        reveal(obeys_concrete_eq);
    }
    let n = s.len();
    let mut ret: Vec<usize> = vec![0; n];
    let mut i: usize = 0;
    let mut j: usize = 0;
    while i < n
        invariant
            obeys_concrete_eq::<T>(),
            n == s@.len(),
            ret@.len() == n,
            i <= n,
            i < n ==> is_palindrome_at(s@, i as int, j as int),
            forall|p: int| 0 <= p < i ==> #[trigger] is_radius(s@, p, ret@[p] as int),
            forall|p: int| 0 <= p < i ==> #[trigger] ret@[p] <= p + 1,
        decreases n - i,
    {
        while i >= j && i + j < n && s[i - j] == s[i + j]
            invariant
                obeys_concrete_eq::<T>(),
                n == s@.len(),
                i < n,
                is_palindrome_at(s@, i as int, j as int),
            decreases n - j,
        {
            proof {
                reveal(obeys_concrete_eq);
            }
            j = j + 1;
        }
        proof {
            reveal(obeys_concrete_eq);
        }
        ret.set(i, j);
        let mut k: usize = 1;
        proof {
            assert(s@[i as int - 0] == s@[i as int + 0]);
        }
        while i >= k && k + ret[i - k] < j
            invariant
                n == s@.len(),
                ret@.len() == n,
                i < n,
                1 <= k <= j,
                is_radius(s@, i as int, j as int),
                forall|p: int| 0 <= p < i + k ==> #[trigger] is_radius(s@, p, ret@[p] as int),
                forall|p: int| 0 <= p < i + k ==> #[trigger] ret@[p] <= p + 1,
            decreases n - k,
        {
            proof {
                lemma_mirror(s@, i as int, j as int, k as int, ret@[i - k] as int);
                assert(ret@[i - k] >= 1) by {
                    assert(is_radius(s@, i - k, ret@[i - k] as int));
                    if ret@[i - k] == 0 {
                        assert(i - k + 0 < s@.len());
                    }
                }
            }
            let v = ret[i - k];
            ret.set(i + k, v);
            k = k + 1;
        }
        proof {
            if i + k < n && k < j {
                assert(i >= k);
                let p = i - k;
                let a = ret@[p as int] as int;
                assert(is_radius(s@, p as int, a));
                assert forall|t: int| 0 <= t < j - k implies #[trigger] s@[(i + k) - t] == s@[(i + k) + t] by {
                    if k >= t {
                        assert(s@[i - (k - t)] == s@[i + (k - t)]);
                    } else {
                        assert(s@[i - (t - k)] == s@[i + (t - k)]);
                    }
                    assert(s@[i - (k + t)] == s@[i + (k + t)]);
                    assert(s@[p - t] == s@[p + t]);
                }
            }
        }
        i = i + k;
        j = j - k;
    }
    proof {
        assert forall|i: int| 0 <= i < s@.len() implies {
            &&& 1 <= #[trigger] ret@[i] <= i + 1
            &&& i + ret@[i] <= s@.len()
            &&& forall|k: int| 0 <= k < ret@[i] ==> #[trigger] s@[i - k] == s@[i + k]
            &&& (ret@[i] == i + 1 || i + ret@[i] == s@.len() || s@[i - ret@[i]] != s@[i + ret@[i]])
        } by {
            assert(is_radius(s@, i, ret@[i] as int));
            assert(s@[i - 0] == s@[i + 0]);
        }
    }
    ret
}

} // verus!
