//! Fractional distances as pairs of integers, and their minimum.

use vstd::prelude::*;

verus! {

/// A fractional Hamming distance: `numerator` unequal bits out of
/// `denominator` compared bits. With a denominator of zero nothing was
/// compared, and the distance counts as infinite.
#[derive(Clone, Copy, PartialEq, Eq, Debug)]
pub struct Fraction {
    pub numerator: u16,
    pub denominator: u16,
}

/// Whether `a` is a smaller distance than `b`, both with a denominator above
/// zero.
pub open spec fn closer(a: Fraction, b: Fraction) -> bool {
    a.numerator * b.denominator < b.numerator * a.denominator
}

/// The smaller of the best distance so far and the next one. No distance so
/// far stands for infinity; of two equal distances the earlier one stays.
pub open spec fn min_step(best: Option<Fraction>, next: Fraction) -> Option<Fraction> {
    if next.denominator == 0 {
        best
    } else {
        match best {
            None => Some(next),
            Some(b) => if closer(next, b) {
                Some(next)
            } else {
                Some(b)
            },
        }
    }
}

/// The smallest of the first `n` distances, `None` where none of them has a
/// denominator above zero.
pub open spec fn min_of(lanes: Seq<Fraction>, n: nat) -> Option<Fraction>
    decreases n,
{
    if n == 0 {
        None
    } else {
        min_step(min_of(lanes, (n - 1) as nat), lanes[n - 1])
    }
}

impl Fraction {
    /// Whether this distance is smaller than `other`, both with a
    /// denominator above zero.
    pub fn closer_than(&self, other: &Fraction) -> (less: bool)
        ensures
            less == closer(*self, *other),
    {
        proof {
            lemma_product_fits(self.numerator, other.denominator);
            lemma_product_fits(other.numerator, self.denominator);
        }
        let left: u32 = (self.numerator as u32) * (other.denominator as u32);
        let right: u32 = (other.numerator as u32) * (self.denominator as u32);
        left < right
    }

    /// The smaller of the best distance so far and this one.
    pub fn fold_min(best: Option<Fraction>, next: Fraction) -> (least: Option<Fraction>)
        ensures
            least == min_step(best, next),
    {
        if next.denominator == 0 {
            best
        } else {
            match best {
                None => Some(next),
                Some(b) => if next.closer_than(&b) {
                    Some(next)
                } else {
                    Some(b)
                },
            }
        }
    }
}

proof fn lemma_product_fits(x: u16, y: u16)
    by (nonlinear_arith)
    ensures
        0 <= x * y <= 0xfffe_0001,
{
}

/// The minimum of the first `n` distances is `None` exactly where none of
/// them has a denominator above zero. Otherwise it is one of them with a
/// denominator above zero, none of them is smaller, and those before it are
/// larger.
pub proof fn lemma_min_of(lanes: Seq<Fraction>, n: nat)
    requires
        n <= lanes.len(),
    ensures
        min_of(lanes, n) is None <==> forall|k: int| 0 <= k < n ==> lanes[k].denominator == 0,
        min_of(lanes, n) matches Some(least) ==> {
            &&& least.denominator > 0
            &&& exists|k: int|
                0 <= k < n && lanes[k] == least && forall|j: int|
                    0 <= j < k && lanes[j].denominator > 0 ==> closer(least, #[trigger] lanes[j])
            &&& forall|j: int|
                0 <= j < n && lanes[j].denominator > 0 ==> !closer(#[trigger] lanes[j], least)
        },
    decreases n,
{
    if n > 0 {
        let m = (n - 1) as nat;
        lemma_min_of(lanes, m);
        let next = lanes[n - 1];
        match min_of(lanes, m) {
            None => {
                if next.denominator > 0 {
                    assert(min_of(lanes, n) == Some(next));
                    let k = n - 1;
                    assert(0 <= k < n && lanes[k] == next);
                }
            },
            Some(b) => {
                let kb = choose|k: int|
                    0 <= k < m && lanes[k] == b && forall|j: int|
                        0 <= j < k && lanes[j].denominator > 0 ==> closer(b, #[trigger] lanes[j]);
                if next.denominator > 0 && closer(next, b) {
                    let k = n - 1;
                    assert forall|j: int| 0 <= j < n && lanes[j].denominator > 0 implies !closer(
                        #[trigger] lanes[j],
                        next,
                    ) by {
                        if j < m {
                            lemma_not_closer_chain(lanes[j], b, next);
                        }
                    }
                    assert forall|j: int| 0 <= j < k && lanes[j].denominator > 0 implies closer(
                        next,
                        #[trigger] lanes[j],
                    ) by {
                        lemma_closer_chain(next, b, lanes[j]);
                    }
                    assert(0 <= k < n && lanes[k] == next);
                } else {
                    assert(min_of(lanes, n) == Some(b));
                    assert(0 <= kb < n && lanes[kb] == b);
                }
            },
        }
    }
}

/// A distance that is not smaller than `b` is not smaller than one that is
/// smaller than `b`.
pub proof fn lemma_not_closer_chain(x: Fraction, b: Fraction, next: Fraction)
    requires
        x.denominator > 0,
        b.denominator > 0,
        next.denominator > 0,
        !closer(x, b),
        closer(next, b),
    ensures
        !closer(x, next),
{
    let (xn, xd) = (x.numerator as int, x.denominator as int);
    let (bn, bd) = (b.numerator as int, b.denominator as int);
    let (cn, cd) = (next.numerator as int, next.denominator as int);
    assert(xn * cd >= cn * xd) by (nonlinear_arith)
        requires
            xd > 0,
            bd > 0,
            cd > 0,
            xn >= 0,
            bn >= 0,
            cn >= 0,
            xn * bd >= bn * xd,
            cn * bd < bn * cd,
    {
        assert(xn * bd * cd >= bn * xd * cd);
        assert(cn * bd * xd <= bn * cd * xd);
        assert(xn * cd * bd >= cn * xd * bd);
    }
}

/// A distance that is smaller than `b` is smaller than every one that is not
/// smaller than `b`.
pub proof fn lemma_closer_chain(next: Fraction, b: Fraction, x: Fraction)
    requires
        x.denominator > 0,
        b.denominator > 0,
        next.denominator > 0,
        closer(next, b),
        !closer(x, b),
    ensures
        closer(next, x),
{
    let (xn, xd) = (x.numerator as int, x.denominator as int);
    let (bn, bd) = (b.numerator as int, b.denominator as int);
    let (cn, cd) = (next.numerator as int, next.denominator as int);
    assert(cn * xd < xn * cd) by (nonlinear_arith)
        requires
            xd > 0,
            bd > 0,
            cd > 0,
            xn >= 0,
            bn >= 0,
            cn >= 0,
            xn * bd >= bn * xd,
            cn * bd < bn * cd,
    {
        assert(cn * bd * xd < bn * cd * xd);
        assert(bn * xd * cd <= xn * bd * cd);
        assert(cn * xd * bd < xn * cd * bd);
    }
}

} // verus!
