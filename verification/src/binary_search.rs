//! Binary search on the boundary of a predicate between two integers.
use vstd::prelude::*;

verus! {

/// `s / 2` rounded towards zero.
pub open spec fn half_toward_zero(s: int) -> int {
    if s >= 0 {
        s / 2
    } else {
        -((-s) / 2)
    }
}

/// `|x|`.
pub open spec fn abs_int(x: int) -> int {
    if x < 0 {
        -x
    } else {
        x
    }
}

/// Values between which a search can look at a middle point.
pub trait Bisect: Clone {
    /// The value as an integer.
    spec fn value(&self) -> int;

    /// The midpoint of `self` and `rhs` rounded towards zero, when they are more than one apart.
    fn middle_point(&self, rhs: &Self) -> (r: Option<Self>)
        ensures
            abs_int(self.value() - rhs.value()) > 1 ==> (r matches Some(m) && m.value() == half_toward_zero(
                self.value() + rhs.value(),
            )),
            abs_int(self.value() - rhs.value()) <= 1 ==> r is None,
    ;
}

impl Bisect for usize {
    open spec fn value(&self) -> int {
        *self as int
    }

    fn middle_point(&self, rhs: &Self) -> (r: Option<Self>) {
        let a = *self as i128;
        let b = *rhs as i128;
        let d = if a > b {
            a - b
        } else {
            b - a
        };
        if d > 1 {
            let s = a + b;
            let m = if s >= 0 {
                s / 2
            } else {
                -((-s) / 2)
            };
            proof {
                assert(half_toward_zero(s as int) == m);
                assert(*self as int <= m <= *rhs as int || *rhs as int <= m <= *self as int);
            }
            Some(m as usize)
        } else {
            None
        }
    }
}

impl Bisect for u8 {
    open spec fn value(&self) -> int {
        *self as int
    }

    fn middle_point(&self, rhs: &Self) -> (r: Option<Self>) {
        let a = *self as i128;
        let b = *rhs as i128;
        let d = if a > b {
            a - b
        } else {
            b - a
        };
        if d > 1 {
            let s = a + b;
            let m = if s >= 0 {
                s / 2
            } else {
                -((-s) / 2)
            };
            proof {
                assert(half_toward_zero(s as int) == m);
                assert(*self as int <= m <= *rhs as int || *rhs as int <= m <= *self as int);
            }
            Some(m as u8)
        } else {
            None
        }
    }
}

impl Bisect for u16 {
    open spec fn value(&self) -> int {
        *self as int
    }

    fn middle_point(&self, rhs: &Self) -> (r: Option<Self>) {
        let a = *self as i128;
        let b = *rhs as i128;
        let d = if a > b {
            a - b
        } else {
            b - a
        };
        if d > 1 {
            let s = a + b;
            let m = if s >= 0 {
                s / 2
            } else {
                -((-s) / 2)
            };
            proof {
                assert(half_toward_zero(s as int) == m);
                assert(*self as int <= m <= *rhs as int || *rhs as int <= m <= *self as int);
            }
            Some(m as u16)
        } else {
            None
        }
    }
}

impl Bisect for u32 {
    open spec fn value(&self) -> int {
        *self as int
    }

    fn middle_point(&self, rhs: &Self) -> (r: Option<Self>) {
        let a = *self as i128;
        let b = *rhs as i128;
        let d = if a > b {
            a - b
        } else {
            b - a
        };
        if d > 1 {
            let s = a + b;
            let m = if s >= 0 {
                s / 2
            } else {
                -((-s) / 2)
            };
            proof {
                assert(half_toward_zero(s as int) == m);
                assert(*self as int <= m <= *rhs as int || *rhs as int <= m <= *self as int);
            }
            Some(m as u32)
        } else {
            None
        }
    }
}

impl Bisect for u64 {
    open spec fn value(&self) -> int {
        *self as int
    }

    fn middle_point(&self, rhs: &Self) -> (r: Option<Self>) {
        let a = *self as i128;
        let b = *rhs as i128;
        let d = if a > b {
            a - b
        } else {
            b - a
        };
        if d > 1 {
            let s = a + b;
            let m = if s >= 0 {
                s / 2
            } else {
                -((-s) / 2)
            };
            proof {
                assert(half_toward_zero(s as int) == m);
                assert(*self as int <= m <= *rhs as int || *rhs as int <= m <= *self as int);
            }
            Some(m as u64)
        } else {
            None
        }
    }
}

impl Bisect for isize {
    open spec fn value(&self) -> int {
        *self as int
    }

    fn middle_point(&self, rhs: &Self) -> (r: Option<Self>) {
        let a = *self as i128;
        let b = *rhs as i128;
        let d = if a > b {
            a - b
        } else {
            b - a
        };
        if d > 1 {
            let s = a + b;
            let m = if s >= 0 {
                s / 2
            } else {
                -((-s) / 2)
            };
            proof {
                assert(half_toward_zero(s as int) == m);
                assert(*self as int <= m <= *rhs as int || *rhs as int <= m <= *self as int);
            }
            Some(m as isize)
        } else {
            None
        }
    }
}

impl Bisect for i8 {
    open spec fn value(&self) -> int {
        *self as int
    }

    fn middle_point(&self, rhs: &Self) -> (r: Option<Self>) {
        let a = *self as i128;
        let b = *rhs as i128;
        let d = if a > b {
            a - b
        } else {
            b - a
        };
        if d > 1 {
            let s = a + b;
            let m = if s >= 0 {
                s / 2
            } else {
                -((-s) / 2)
            };
            proof {
                assert(half_toward_zero(s as int) == m);
                assert(*self as int <= m <= *rhs as int || *rhs as int <= m <= *self as int);
            }
            Some(m as i8)
        } else {
            None
        }
    }
}

impl Bisect for i16 {
    open spec fn value(&self) -> int {
        *self as int
    }

    fn middle_point(&self, rhs: &Self) -> (r: Option<Self>) {
        let a = *self as i128;
        let b = *rhs as i128;
        let d = if a > b {
            a - b
        } else {
            b - a
        };
        if d > 1 {
            let s = a + b;
            let m = if s >= 0 {
                s / 2
            } else {
                -((-s) / 2)
            };
            proof {
                assert(half_toward_zero(s as int) == m);
                assert(*self as int <= m <= *rhs as int || *rhs as int <= m <= *self as int);
            }
            Some(m as i16)
        } else {
            None
        }
    }
}

impl Bisect for i32 {
    open spec fn value(&self) -> int {
        *self as int
    }

    fn middle_point(&self, rhs: &Self) -> (r: Option<Self>) {
        let a = *self as i128;
        let b = *rhs as i128;
        let d = if a > b {
            a - b
        } else {
            b - a
        };
        if d > 1 {
            let s = a + b;
            let m = if s >= 0 {
                s / 2
            } else {
                -((-s) / 2)
            };
            proof {
                assert(half_toward_zero(s as int) == m);
                assert(*self as int <= m <= *rhs as int || *rhs as int <= m <= *self as int);
            }
            Some(m as i32)
        } else {
            None
        }
    }
}

impl Bisect for i64 {
    open spec fn value(&self) -> int {
        *self as int
    }

    fn middle_point(&self, rhs: &Self) -> (r: Option<Self>) {
        let a = *self as i128;
        let b = *rhs as i128;
        let d = if a > b {
            a - b
        } else {
            b - a
        };
        if d > 1 {
            let s = a + b;
            let m = if s >= 0 {
                s / 2
            } else {
                -((-s) / 2)
            };
            proof {
                assert(half_toward_zero(s as int) == m);
                assert(*self as int <= m <= *rhs as int || *rhs as int <= m <= *self as int);
            }
            Some(m as i64)
        } else {
            None
        }
    }
}

impl Bisect for u128 {
    open spec fn value(&self) -> int {
        *self as int
    }

    fn middle_point(&self, rhs: &Self) -> (r: Option<Self>) {
        let (lo, hi) = if *self <= *rhs {
            (*self, *rhs)
        } else {
            (*rhs, *self)
        };
        let d = hi - lo;
        if d > 1 {
            Some(lo + d / 2)
        } else {
            None
        }
    }
}

impl Bisect for i128 {
    open spec fn value(&self) -> int {
        *self as int
    }

    fn middle_point(&self, rhs: &Self) -> (r: Option<Self>) {
        let (lo, hi) = if *self <= *rhs {
            (*self, *rhs)
        } else {
            (*rhs, *self)
        };
        // hi - lo and the sign of lo + hi, without leaving 128 bits
        let (d, negative): (u128, bool) = if lo >= 0 {
            ((hi - lo) as u128, false)
        } else if hi < 0 {
            ((hi - lo) as u128, true)
        } else {
            let neg_lo: u128 = (-(lo + 1)) as u128 + 1;
            ((hi as u128) + neg_lo, (hi as u128) < neg_lo)
        };
        if d > 1 {
            let half = d / 2;
            let floor_mid = lo + half as i128;
            let m = if negative && d % 2 == 1 {
                floor_mid + 1
            } else {
                floor_mid
            };
            Some(m)
        } else {
            None
        }
    }
}

/// Narrows `[ok, ng]` by middle points while they are more than one apart, keeping `ok` on the
/// side where `checker` holds and `ng` on the other.  The result `r` lies on the `ok` side of
/// `ng`: it is `ok` or a point where `checker` answered `true`, and its neighbour towards `ng`
/// is `ng` or a point where `checker` answered `false`.
pub fn binary_search<T: Bisect + Copy, F: Fn(T) -> bool>(ok: T, ng: T, checker: F) -> (r: T)
    requires
        forall|x: T| call_requires(checker, (x,)),
    ensures
        ok.value() <= ng.value() ==> ok.value() <= r.value() <= ng.value(),
        ng.value() <= ok.value() ==> ng.value() <= r.value() <= ok.value(),
        r.value() == ok.value() || exists|c: T| c.value() == r.value() && call_ensures(checker, (c,), true),
        ok.value() == ng.value() ==> r.value() == ok.value(),
        ok.value() < ng.value() ==> r.value() < ng.value() && (r.value() + 1 == ng.value() || exists|c: T|
            c.value() == r.value() + 1 && call_ensures(checker, (c,), false)),
        ng.value() < ok.value() ==> ng.value() < r.value() && (r.value() - 1 == ng.value() || exists|c: T|
            c.value() == r.value() - 1 && call_ensures(checker, (c,), false)),
{
    let ghost ok0 = ok.value();
    let ghost ng0 = ng.value();
    let mut ok = ok;
    let mut ng = ng;
    loop
        invariant
            forall|x: T| call_requires(checker, (x,)),
            ok0 <= ng0 ==> ok0 <= ok.value() <= ng.value() <= ng0,
            ng0 <= ok0 ==> ng0 <= ng.value() <= ok.value() <= ok0,
            ok.value() == ok0 || exists|c: T| c.value() == ok.value() && call_ensures(checker, (c,), true),
            ng.value() == ng0 || exists|c: T| c.value() == ng.value() && call_ensures(checker, (c,), false),
            ok0 < ng0 ==> ok.value() < ng.value(),
            ng0 < ok0 ==> ng.value() < ok.value(),
            ok0 == ng0 ==> ok.value() == ok0 && ng.value() == ng0,
        ensures
            ok0 <= ng0 ==> ok0 <= ok.value() <= ng.value() <= ng0,
            ng0 <= ok0 ==> ng0 <= ng.value() <= ok.value() <= ok0,
            ok.value() == ok0 || exists|c: T| c.value() == ok.value() && call_ensures(checker, (c,), true),
            ng.value() == ng0 || exists|c: T| c.value() == ng.value() && call_ensures(checker, (c,), false),
            abs_int(ok.value() - ng.value()) <= 1,
            ok0 < ng0 ==> ok.value() < ng.value(),
            ng0 < ok0 ==> ng.value() < ok.value(),
            ok0 == ng0 ==> ok.value() == ok0 && ng.value() == ng0,
        decreases abs_int(ok.value() - ng.value()),
    {
        match ok.middle_point(&ng) {
            Some(m) => {
                let ghost cc = m;
                proof {
                    let a = ok.value();
                    let b = ng.value();
                    assert(a < m.value() < b || b < m.value() < a) by {
                        let s = a + b;
                        if s < 0 {
                            assert(-((-s) / 2) * 2 <= s + 1);
                            assert(-((-s) / 2) * 2 >= s);
                        } else {
                            assert((s / 2) * 2 <= s);
                            assert((s / 2) * 2 >= s - 1);
                        }
                    }
                }
                if checker(m) {
                    ok = m;
                    assert(cc.value() == ok.value() && call_ensures(checker, (cc,), true));
                } else {
                    ng = m;
                    assert(cc.value() == ng.value() && call_ensures(checker, (cc,), false));
                }
            },
            None => {
                break;
            },
        }
    }
    proof {
        assert(abs_int(ok.value() - ng.value()) <= 1);
    }
    ok
}

} // verus!
