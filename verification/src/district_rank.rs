//! The district ranking: districts ordered by a composite score of their
//! averages, compared exactly as fractions.
use vstd::prelude::*;

use crate::infographics::{DistrictStats, Ratio};
use crate::natural::{less, product, sum, value, word_product};

verus! {

/// The numerator of a fraction (a zero denominator stands for zero).
pub open spec fn top_of(r: Ratio) -> int {
    if r.den == 0 { 0 } else { r.num as int }
}

/// The denominator of a fraction (one where it is zero).
pub open spec fn bottom_of(r: Ratio) -> int {
    if r.den == 0 { 1 } else { r.den as int }
}

/// The composite score of a district is its Abitur average less half its
/// demand ratio less a hundredth of its pass rate (lower ranks first).
/// As a fraction: this numerator over `score_bottom`.
pub open spec fn score_top(d: DistrictStats) -> int {
    let (an, ad) = (top_of(d.avg_abitur), bottom_of(d.avg_abitur));
    let (dn, dd) = (top_of(d.avg_demand), bottom_of(d.avg_demand));
    let (pn, pd) = (top_of(d.avg_pass), bottom_of(d.avg_pass));
    200 * an * dd * pd - 100 * dn * ad * pd - 2 * pn * ad * dd
}

/// The (positive) denominator of the composite score.
pub open spec fn score_bottom(d: DistrictStats) -> int {
    200 * bottom_of(d.avg_abitur) * bottom_of(d.avg_demand) * bottom_of(d.avg_pass)
}

/// The score of `a` is below that of `b`.
pub open spec fn score_below(a: DistrictStats, b: DistrictStats) -> bool {
    score_top(a) * score_bottom(b) < score_top(b) * score_bottom(a)
}

proof fn lemma_bottom_positive(d: DistrictStats)
    ensures
        score_bottom(d) > 0,
{
    let (x, y, z) = (bottom_of(d.avg_abitur), bottom_of(d.avg_demand), bottom_of(d.avg_pass));
    assert(200 * x * y * z > 0) by (nonlinear_arith)
        requires
            x > 0,
            y > 0,
            z > 0,
    ;
}

/// Scores are ordered: one below another is not also above it, and "not
/// below" is transitive.
pub proof fn lemma_score_order(a: DistrictStats, b: DistrictStats, c: DistrictStats)
    ensures
        !score_below(a, a),
        score_below(a, b) ==> !score_below(b, a),
        !score_below(b, a) && !score_below(c, b) ==> !score_below(c, a),
        score_below(a, b) && score_below(b, c) ==> score_below(a, c),
{
    lemma_bottom_positive(a);
    lemma_bottom_positive(b);
    lemma_bottom_positive(c);
    lemma_le_trans(score_top(a), score_top(b), score_top(c), score_bottom(a), score_bottom(b), score_bottom(c));
    lemma_lt_trans(score_top(a), score_top(b), score_top(c), score_bottom(a), score_bottom(b), score_bottom(c));
}

proof fn lemma_le_trans(sa: int, sb: int, sc: int, ta: int, tb: int, tc: int)
    requires
        ta > 0,
        tb > 0,
        tc > 0,
    ensures
        sa * tb <= sb * ta && sb * tc <= sc * tb ==> sa * tc <= sc * ta,
{
    if sa * tb <= sb * ta && sb * tc <= sc * tb {
        assert(sa * tb * tc <= sb * ta * tc) by (nonlinear_arith)
            requires
                sa * tb <= sb * ta,
                tc > 0,
        ;
        assert(sb * tc * ta <= sc * tb * ta) by (nonlinear_arith)
            requires
                sb * tc <= sc * tb,
                ta > 0,
        ;
        assert(sa * tc <= sc * ta) by (nonlinear_arith)
            requires
                sa * tb * tc <= sb * ta * tc,
                sb * tc * ta <= sc * tb * ta,
                tb > 0,
        ;
    }
}

proof fn lemma_lt_trans(sa: int, sb: int, sc: int, ta: int, tb: int, tc: int)
    requires
        ta > 0,
        tb > 0,
        tc > 0,
    ensures
        sa * tb < sb * ta && sb * tc < sc * tb ==> sa * tc < sc * ta,
{
    if sa * tb < sb * ta && sb * tc < sc * tb {
        assert(sa * tb * tc < sb * ta * tc) by (nonlinear_arith)
            requires
                sa * tb < sb * ta,
                tc > 0,
        ;
        assert(sb * tc * ta < sc * tb * ta) by (nonlinear_arith)
            requires
                sb * tc < sc * tb,
                ta > 0,
        ;
        assert(sa * tc < sc * ta) by (nonlinear_arith)
            requires
                sa * tb * tc < sb * ta * tc,
                sb * tc * ta < sc * tb * ta,
                tb > 0,
        ;
    }
}

/// The numerator and denominator of a fraction, as machine words.
fn parts(r: Ratio) -> (p: (u64, u64))
    ensures
        p.0 == top_of(r),
        p.1 == bottom_of(r),
{
    if r.den == 0 { (0, 1) } else { (r.num, r.den) }
}

proof fn lemma_seven(x: u64, c: Seq<u64>)
    requires
        c.len() == 7,
    ensures
        x * word_product(c) == x * c[0] * c[1] * c[2] * c[3] * c[4] * c[5] * c[6],
{
    reveal_with_fuel(word_product, 8);
    assert(c.drop_last().drop_last().drop_last().drop_last().drop_last().drop_last().drop_last().len() == 0);
    let w = c[0] * c[1] * c[2] * c[3] * c[4] * c[5] * c[6];
    assert(word_product(c) == w);
    assert(x * word_product(c) == x * c[0] * c[1] * c[2] * c[3] * c[4] * c[5] * c[6]) by (nonlinear_arith)
        requires
            word_product(c) == c[0] * c[1] * c[2] * c[3] * c[4] * c[5] * c[6],
    ;
}

/// `first` times the seven words of `c`.
fn term(first: u64, c: Vec<u64>) -> (r: Vec<u64>)
    requires
        c@.len() == 7,
    ensures
        value(r@) == first * c@[0] * c@[1] * c@[2] * c@[3] * c@[4] * c@[5] * c@[6],
{
    let r = product(first, &c);
    proof {
        lemma_seven(first, c@);
    }
    r
}

proof fn lemma_distribute(x: int, y: int, z: int, t: int)
    by (nonlinear_arith)
    ensures
        (x - y - z) * t == x * t - y * t - z * t,
{
}

proof fn lemma_regroup(k: int, x: int, y: int, z: int, w: int, u: int, v: int, s: int)
    by (nonlinear_arith)
    ensures
        (k * x * y * z) * (w * u * v * s) == x * k * y * z * w * u * v * s,
{
}

proof fn lemma_cross(
    an: int, ad: int, dn: int, dd: int, pn: int, pd: int,
    bn: int, bd: int, en: int, ed: int, qn: int, qd: int,
)
    ensures
        (200 * an * dd * pd - 100 * dn * ad * pd - 2 * pn * ad * dd) * (200 * bd * ed * qd)
            - (200 * bn * ed * qd - 100 * en * bd * qd - 2 * qn * bd * ed) * (200 * ad * dd * pd)
            == (an * 200 * dd * pd * 200 * bd * ed * qd + en * 100 * bd * qd * 200 * ad * dd * pd + qn * 2 * bd * ed
            * 200 * ad * dd * pd) - (bn * 200 * ed * qd * 200 * ad * dd * pd + dn * 100 * ad * pd * 200 * bd * ed
            * qd + pn * 2 * ad * dd * 200 * bd * ed * qd),
{
    lemma_distribute(200 * an * dd * pd, 100 * dn * ad * pd, 2 * pn * ad * dd, 200 * bd * ed * qd);
    lemma_distribute(200 * bn * ed * qd, 100 * en * bd * qd, 2 * qn * bd * ed, 200 * ad * dd * pd);
    lemma_regroup(200, an, dd, pd, 200, bd, ed, qd);
    lemma_regroup(100, dn, ad, pd, 200, bd, ed, qd);
    lemma_regroup(2, pn, ad, dd, 200, bd, ed, qd);
    lemma_regroup(200, bn, ed, qd, 200, ad, dd, pd);
    lemma_regroup(100, en, bd, qd, 200, ad, dd, pd);
    lemma_regroup(2, qn, bd, ed, 200, ad, dd, pd);
}

/// Whether the score of district `a` is below that of district `b`,
/// decided exactly.
pub fn district_below(a: &DistrictStats, b: &DistrictStats) -> (r: bool)
    ensures
        r == score_below(*a, *b),
{
    let (an, ad) = parts(a.avg_abitur);
    let (dn, dd) = parts(a.avg_demand);
    let (pn, pd) = parts(a.avg_pass);
    let (bn, bd) = parts(b.avg_abitur);
    let (en, ed) = parts(b.avg_demand);
    let (qn, qd) = parts(b.avg_pass);
    // The score of `a` times the denominator of `b`'s, and the other way
    // round, each split into its positive and negative terms.
    let l1 = term(an, vec![200, dd, pd, 200, bd, ed, qd]);
    let l2 = term(en, vec![100, bd, qd, 200, ad, dd, pd]);
    let l3 = term(qn, vec![2, bd, ed, 200, ad, dd, pd]);
    let r1 = term(bn, vec![200, ed, qd, 200, ad, dd, pd]);
    let r2 = term(dn, vec![100, ad, pd, 200, bd, ed, qd]);
    let r3 = term(pn, vec![2, ad, dd, 200, bd, ed, qd]);
    let left = sum(sum(l1, l2), l3);
    let right = sum(sum(r1, r2), r3);
    proof {
        lemma_cross(
            an as int, ad as int, dn as int, dd as int, pn as int, pd as int,
            bn as int, bd as int, en as int, ed as int, qn as int, qd as int,
        );
    }
    less(left, right)
}

/// `order` ranks the districts by score: lower scores first, and districts
/// with equal scores in their given order.
pub open spec fn ranked(districts: Seq<DistrictStats>, order: Seq<usize>) -> bool {
    forall|a: int, b: int|
        0 <= a < b < order.len() ==> {
            &&& !score_below(districts[order[b] as int], districts[order[a] as int])
            &&& (!score_below(districts[order[a] as int], districts[order[b] as int]) ==> order[a] < order[b])
        }
}

/// `order` lists each position of `n` once.
pub open spec fn is_permutation(order: Seq<usize>, n: int) -> bool {
    &&& order.len() == n
    &&& forall|k: int| 0 <= k < order.len() ==> order[k] < n
    &&& forall|a: int, b: int| 0 <= a < b < order.len() ==> order[a] != order[b]
}


/// The value of the fraction `x` is above that of `y` (a zero denominator
/// stands for zero).
pub open spec fn fraction_above(x: Ratio, y: Ratio) -> bool {
    top_of(x) * bottom_of(y) > top_of(y) * bottom_of(x)
}

proof fn lemma_bottoms_positive(r: Ratio)
    ensures
        bottom_of(r) > 0,
{
}

/// With equal Abitur averages and pass rates, the score falls as the
/// demand ratio rises (the demand term is `- demand / 2`).
proof fn lemma_demand_term(an: int, ad: int, dn: int, dd: int, en: int, ed: int, pn: int, pd: int)
    requires
        ad > 0,
        dd > 0,
        ed > 0,
        pd > 0,
        dn * ed > en * dd,
    ensures
        (200 * an * dd * pd - 100 * dn * ad * pd - 2 * pn * ad * dd) * (200 * ad * ed * pd) < (200 * an * ed * pd
            - 100 * en * ad * pd - 2 * pn * ad * ed) * (200 * ad * dd * pd),
{
    lemma_cross(an, ad, dn, dd, pn, pd, an, ad, en, ed, pn, pd);
    let m = 20000 * ad * ad * pd * pd;
    assert(an * 200 * dd * pd * 200 * ad * ed * pd == an * 200 * ed * pd * 200 * ad * dd * pd) by (nonlinear_arith);
    assert(pn * 2 * ad * ed * 200 * ad * dd * pd == pn * 2 * ad * dd * 200 * ad * ed * pd) by (nonlinear_arith);
    assert(en * 100 * ad * pd * 200 * ad * dd * pd == m * (en * dd)) by (nonlinear_arith)
        requires
            m == 20000 * ad * ad * pd * pd,
    ;
    assert(dn * 100 * ad * pd * 200 * ad * ed * pd == m * (dn * ed)) by (nonlinear_arith)
        requires
            m == 20000 * ad * ad * pd * pd,
    ;
    assert(m > 0) by (nonlinear_arith)
        requires
            m == 20000 * ad * ad * pd * pd,
            ad > 0,
            pd > 0,
    ;
    assert(m * (en * dd) < m * (dn * ed)) by (nonlinear_arith)
        requires
            m > 0,
            en * dd < dn * ed,
    ;
}

/// With equal demand ratios and pass rates, the score rises with the
/// Abitur average.
proof fn lemma_abitur_term(an: int, ad: int, bn: int, bd: int, dn: int, dd: int, pn: int, pd: int)
    requires
        ad > 0,
        bd > 0,
        dd > 0,
        pd > 0,
        an * bd < bn * ad,
    ensures
        (200 * an * dd * pd - 100 * dn * ad * pd - 2 * pn * ad * dd) * (200 * bd * dd * pd) < (200 * bn * dd * pd
            - 100 * dn * bd * pd - 2 * pn * bd * dd) * (200 * ad * dd * pd),
{
    lemma_cross(an, ad, dn, dd, pn, pd, bn, bd, dn, dd, pn, pd);
    let m = 40000 * dd * dd * pd * pd;
    assert(dn * 100 * bd * pd * 200 * ad * dd * pd == dn * 100 * ad * pd * 200 * bd * dd * pd) by (nonlinear_arith);
    assert(pn * 2 * bd * dd * 200 * ad * dd * pd == pn * 2 * ad * dd * 200 * bd * dd * pd) by (nonlinear_arith);
    assert(an * 200 * dd * pd * 200 * bd * dd * pd == m * (an * bd)) by (nonlinear_arith)
        requires
            m == 40000 * dd * dd * pd * pd,
    ;
    assert(bn * 200 * dd * pd * 200 * ad * dd * pd == m * (bn * ad)) by (nonlinear_arith)
        requires
            m == 40000 * dd * dd * pd * pd,
    ;
    assert(m > 0) by (nonlinear_arith)
        requires
            m == 40000 * dd * dd * pd * pd,
            dd > 0,
            pd > 0,
    ;
    assert(m * (an * bd) < m * (bn * ad)) by (nonlinear_arith)
        requires
            m > 0,
            an * bd < bn * ad,
    ;
}

/// With equal Abitur averages and demand ratios, the score falls as the
/// pass rate rises (the pass-rate term is `- pass / 100`).
proof fn lemma_pass_term(an: int, ad: int, dn: int, dd: int, pn: int, pd: int, qn: int, qd: int)
    requires
        ad > 0,
        dd > 0,
        pd > 0,
        qd > 0,
        pn * qd > qn * pd,
    ensures
        (200 * an * dd * pd - 100 * dn * ad * pd - 2 * pn * ad * dd) * (200 * ad * dd * qd) < (200 * an * dd * qd
            - 100 * dn * ad * qd - 2 * qn * ad * dd) * (200 * ad * dd * pd),
{
    lemma_cross(an, ad, dn, dd, pn, pd, an, ad, dn, dd, qn, qd);
    let m = 400 * ad * ad * dd * dd;
    assert(an * 200 * dd * pd * 200 * ad * dd * qd == an * 200 * dd * qd * 200 * ad * dd * pd) by (nonlinear_arith);
    assert(dn * 100 * ad * qd * 200 * ad * dd * pd == dn * 100 * ad * pd * 200 * ad * dd * qd) by (nonlinear_arith);
    assert(qn * 2 * ad * dd * 200 * ad * dd * pd == m * (qn * pd)) by (nonlinear_arith)
        requires
            m == 400 * ad * ad * dd * dd,
    ;
    assert(pn * 2 * ad * dd * 200 * ad * dd * qd == m * (pn * qd)) by (nonlinear_arith)
        requires
            m == 400 * ad * ad * dd * dd,
    ;
    assert(m > 0) by (nonlinear_arith)
        requires
            m == 400 * ad * ad * dd * dd,
            ad > 0,
            dd > 0,
    ;
    assert(m * (qn * pd) < m * (pn * qd)) by (nonlinear_arith)
        requires
            m > 0,
            qn * pd < pn * qd,
    ;
}

/// The composite score (Abitur average less half the demand ratio less a
/// hundredth of the pass rate) orders districts that differ in one figure:
/// a lower Abitur average, a higher demand ratio or a higher pass rate,
/// the other two figures the same, gives the lower score.
pub proof fn lemma_score_monotone(a: DistrictStats, b: DistrictStats)
    ensures
        a.avg_demand == b.avg_demand && a.avg_pass == b.avg_pass && fraction_above(b.avg_abitur, a.avg_abitur)
            ==> score_below(a, b),
        a.avg_abitur == b.avg_abitur && a.avg_pass == b.avg_pass && fraction_above(a.avg_demand, b.avg_demand)
            ==> score_below(a, b),
        a.avg_abitur == b.avg_abitur && a.avg_demand == b.avg_demand && fraction_above(a.avg_pass, b.avg_pass)
            ==> score_below(a, b),
{
    lemma_bottoms_positive(a.avg_abitur);
    lemma_bottoms_positive(a.avg_demand);
    lemma_bottoms_positive(a.avg_pass);
    lemma_bottoms_positive(b.avg_abitur);
    lemma_bottoms_positive(b.avg_demand);
    lemma_bottoms_positive(b.avg_pass);
    let (an, ad) = (top_of(a.avg_abitur), bottom_of(a.avg_abitur));
    let (dn, dd) = (top_of(a.avg_demand), bottom_of(a.avg_demand));
    let (pn, pd) = (top_of(a.avg_pass), bottom_of(a.avg_pass));
    let (bn, bd) = (top_of(b.avg_abitur), bottom_of(b.avg_abitur));
    let (en, ed) = (top_of(b.avg_demand), bottom_of(b.avg_demand));
    let (qn, qd) = (top_of(b.avg_pass), bottom_of(b.avg_pass));
    if a.avg_demand == b.avg_demand && a.avg_pass == b.avg_pass && fraction_above(b.avg_abitur, a.avg_abitur) {
        lemma_abitur_term(an, ad, bn, bd, dn, dd, pn, pd);
    }
    if a.avg_abitur == b.avg_abitur && a.avg_pass == b.avg_pass && fraction_above(a.avg_demand, b.avg_demand) {
        lemma_demand_term(an, ad, dn, dd, en, ed, pn, pd);
    }
    if a.avg_abitur == b.avg_abitur && a.avg_demand == b.avg_demand && fraction_above(a.avg_pass, b.avg_pass) {
        lemma_pass_term(an, ad, dn, dd, pn, pd, qn, qd);
    }
}

/// In a ranking, a district with a lower score comes first.
pub proof fn lemma_ranked_before(districts: Seq<DistrictStats>, order: Seq<usize>, x: int, y: int)
    requires
        is_permutation(order, districts.len() as int),
        ranked(districts, order),
        0 <= x < order.len(),
        0 <= y < order.len(),
        score_below(districts[order[x] as int], districts[order[y] as int]),
    ensures
        x < y,
{
    lemma_score_order(districts[order[x] as int], districts[order[y] as int], districts[order[x] as int]);
    if y < x {
        assert(!score_below(districts[order[x] as int], districts[order[y] as int]));
    }
}

/// In the ranking of the districts, of two districts with the same Abitur
/// average and pass rate the one with the higher demand ratio comes first;
/// of two with the same demand ratio and pass rate, the one with the lower
/// Abitur average; of two with the same Abitur average and demand ratio,
/// the one with the higher pass rate.
pub proof fn lemma_ranking_by_figures(districts: Seq<DistrictStats>, order: Seq<usize>, x: int, y: int)
    requires
        is_permutation(order, districts.len() as int),
        ranked(districts, order),
        0 <= x < order.len(),
        0 <= y < order.len(),
    ensures
        ({
            let (a, b) = (districts[order[x] as int], districts[order[y] as int]);
            &&& a.avg_abitur == b.avg_abitur && a.avg_pass == b.avg_pass && fraction_above(a.avg_demand, b.avg_demand)
                ==> x < y
            &&& a.avg_demand == b.avg_demand && a.avg_pass == b.avg_pass && fraction_above(b.avg_abitur, a.avg_abitur)
                ==> x < y
            &&& a.avg_abitur == b.avg_abitur && a.avg_demand == b.avg_demand && fraction_above(a.avg_pass, b.avg_pass)
                ==> x < y
        }),
{
    let (a, b) = (districts[order[x] as int], districts[order[y] as int]);
    lemma_score_monotone(a, b);
    if score_below(a, b) {
        lemma_ranked_before(districts, order, x, y);
    }
}

/// The ranking of the districts: their positions, by ascending composite
/// score (stable for equal scores).
pub fn rank_districts(districts: &Vec<DistrictStats>) -> (order: Vec<usize>)
    ensures
        is_permutation(order@, districts@.len() as int),
        ranked(districts@, order@),
{
    let ghost ds = districts@;
    let mut order: Vec<usize> = Vec::new();
    let mut i: usize = 0;
    while i < districts.len()
        invariant
            ds == districts@,
            i <= ds.len(),
            order@.len() == i,
            forall|k: int| 0 <= k < order@.len() ==> order@[k] < i,
            forall|a: int, b: int| 0 <= a < b < order@.len() ==> order@[a] != order@[b],
            ranked(ds, order@),
        decreases ds.len() - i,
    {
        let mut j: usize = order.len();
        while j > 0 && district_below(&districts[i], &districts[order[j - 1]])
            invariant
                ds == districts@,
                i < ds.len(),
                j <= order@.len(),
                forall|k: int| 0 <= k < order@.len() ==> order@[k] < i,
                forall|k: int| j <= k < order@.len() ==> score_below(ds[i as int], ds[order@[k] as int]),
            decreases j,
        {
            j = j - 1;
        }
        let ghost old_order = order@;
        order.insert(j, i);
        proof {
            let o = old_order;
            let x = i;
            let n = order@;
            assert(n == o.insert(j as int, x));
            assert forall|k: int| 0 <= k < n.len() implies n[k] < i + 1 by {
                if k < j {
                    assert(n[k] == o[k]);
                } else if k > j {
                    assert(n[k] == o[k - 1]);
                }
            }
            assert forall|a: int, b: int| 0 <= a < b < n.len() implies n[a] != n[b] by {
                if b < j {
                    assert(n[a] == o[a] && n[b] == o[b]);
                } else if b == j {
                    assert(n[a] == o[a]);
                } else if a < j {
                    assert(n[a] == o[a] && n[b] == o[b - 1]);
                } else if a == j {
                    assert(n[b] == o[b - 1]);
                } else {
                    assert(n[a] == o[a - 1] && n[b] == o[b - 1]);
                }
            }
            assert forall|a: int, b: int| 0 <= a < b < n.len() implies {
                &&& !score_below(ds[n[b] as int], ds[n[a] as int])
                &&& (!score_below(ds[n[a] as int], ds[n[b] as int]) ==> n[a] < n[b])
            } by {
                if b < j {
                    assert(n[a] == o[a] && n[b] == o[b]);
                } else if b == j {
                    assert(n[a] == o[a]);
                    assert(j > 0);
                    assert(!score_below(ds[x as int], ds[o[j - 1] as int]));
                    if a < j - 1 {
                        lemma_score_order(ds[o[a] as int], ds[o[j - 1] as int], ds[x as int]);
                    }
                } else if a < j {
                    assert(n[a] == o[a] && n[b] == o[b - 1]);
                } else if a == j {
                    assert(n[b] == o[b - 1]);
                    assert(score_below(ds[x as int], ds[o[b - 1] as int]));
                    lemma_score_order(ds[x as int], ds[o[b - 1] as int], ds[x as int]);
                } else {
                    assert(n[a] == o[a - 1] && n[b] == o[b - 1]);
                }
            }
        }
        i = i + 1;
    }
    order
}

} // verus!
