//! The figures behind the infographics: top Abitur results, supply and
//! demand, hype against quality, group comparisons and district aggregates.
//!
//! Measurements are in thousandths (see `models`); averages are exact
//! fractions.
use vstd::prelude::*;

use crate::models::School;

verus! {

broadcast use vstd::string::group_string_axioms;

// ---------------------------------------------------------------------------
// Selections and stable orders

/// The positions of the schools a test selects, in order.
pub open spec fn select(schools: Seq<School>, p: spec_fn(School) -> bool) -> Seq<int>
    decreases schools.len(),
{
    if schools.len() == 0 {
        Seq::empty()
    } else if p(schools.last()) {
        select(schools.drop_last(), p).push(schools.len() - 1)
    } else {
        select(schools.drop_last(), p)
    }
}

pub proof fn lemma_select(schools: Seq<School>, p: spec_fn(School) -> bool)
    ensures
        forall|k: int| 0 <= k < select(schools, p).len() ==> 0 <= #[trigger] select(schools, p)[k] < schools.len()
            && p(schools[select(schools, p)[k]]),
        forall|a: int, b: int| 0 <= a < b < select(schools, p).len() ==> select(schools, p)[a] < select(
            schools,
            p,
        )[b],
        forall|j: int| 0 <= j < schools.len() && p(#[trigger] schools[j]) ==> select(schools, p).contains(j),
        select(schools, p).len() <= schools.len(),
    decreases schools.len(),
{
    if schools.len() > 0 {
        let init = schools.drop_last();
        lemma_select(init, p);
        let s0 = select(init, p);
        assert forall|k: int| 0 <= k < s0.len() implies schools[s0[k]] == init[s0[k]] by {}
        assert forall|j: int| 0 <= j < schools.len() && p(#[trigger] schools[j]) implies select(schools, p).contains(j) by {
            if j < schools.len() - 1 {
                assert(init[j] == schools[j]);
                let k = choose|k: int| 0 <= k < s0.len() && s0[k] == j;
                if p(schools.last()) {
                    assert(select(schools, p)[k] == j);
                }
            } else {
                assert(select(schools, p).last() == j);
            }
        }
    }
}

/// `order` lists every position of `keys` once, by ascending key and, for
/// equal keys, by position.
pub open spec fn stable_order(keys: Seq<i64>, order: Seq<int>) -> bool {
    &&& order.len() == keys.len()
    &&& forall|k: int| 0 <= k < order.len() ==> 0 <= #[trigger] order[k] < keys.len()
    &&& forall|a: int, b: int| 0 <= a < b < order.len() ==> order[a] != order[b]
    &&& forall|a: int, b: int| 0 <= a < b < order.len() ==> keys[order[a]] < keys[order[b]] || (keys[order[a]]
        == keys[order[b]] && order[a] < order[b])
}

/// The positions of `keys` in stable ascending order of their keys.
pub fn stable_indices(keys: &Vec<i64>) -> (r: Vec<usize>)
    ensures
        stable_order(keys@, r@.map_values(|x: usize| x as int)),
{
    let n = keys.len();
    let mut idx: Vec<usize> = Vec::new();
    let mut j: usize = 0;
    while j < n
        invariant
            n == keys@.len(),
            j <= n,
            idx@.len() == j,
            forall|k: int| 0 <= k < idx@.len() ==> (#[trigger] idx@[k]) < j,
            forall|a: int, b: int| 0 <= a < b < idx@.len() ==> idx@[a] != idx@[b],
            forall|a: int, b: int| 0 <= a < b < idx@.len() ==> keys@[idx@[a] as int] < keys@[idx@[b] as int] || (
            keys@[idx@[a] as int] == keys@[idx@[b] as int] && idx@[a] < idx@[b]),
        decreases n - j,
    {
        let mut p = idx.len();
        while p > 0 && keys[j] < keys[idx[p - 1]]
            invariant
                p <= idx@.len(),
                j < n,
                n == keys@.len(),
                forall|k: int| 0 <= k < idx@.len() ==> (#[trigger] idx@[k]) < j,
                forall|k: int| p <= k < idx@.len() ==> keys@[j as int] < keys@[#[trigger] idx@[k] as int],
            decreases p,
        {
            p = p - 1;
        }
        let ghost old_idx = idx@;
        idx.insert(p, j);
        proof {
            let ni = idx@;
            assert(ni =~= old_idx.insert(p as int, j));
            assert forall|a: int, b: int| 0 <= a < b < ni.len() implies ni[a] != ni[b] by {
                if a == p {
                    assert(ni[b] == old_idx[b - 1]);
                } else if b == p {
                    assert(ni[a] == old_idx[a]);
                } else if a < p && b < p {
                } else if a < p {
                    assert(ni[b] == old_idx[b - 1]);
                } else {
                    assert(ni[a] == old_idx[a - 1]);
                    assert(ni[b] == old_idx[b - 1]);
                }
            }
            assert forall|a: int, b: int| 0 <= a < b < ni.len() implies keys@[ni[a] as int] < keys@[ni[b] as int] || (
            keys@[ni[a] as int] == keys@[ni[b] as int] && ni[a] < ni[b]) by {
                if b < p {
                } else if b == p {
                    assert(ni[a] == old_idx[a]);
                    assert(keys@[old_idx[p - 1] as int] <= keys@[j as int]);
                } else if a < p {
                    assert(ni[b] == old_idx[b - 1]);
                    assert(keys@[old_idx[p - 1] as int] <= keys@[j as int]);
                } else if a == p {
                    assert(ni[b] == old_idx[b - 1]);
                } else {
                    assert(ni[a] == old_idx[a - 1]);
                    assert(ni[b] == old_idx[b - 1]);
                }
            }
        }
        j = j + 1;
    }
    idx
}

// ---------------------------------------------------------------------------
// Fractions and entries

/// An exact fraction `num / den`; with `den == 0` it stands for zero.
#[derive(Clone, Copy, Debug, PartialEq, Eq, Structural)]
pub struct Ratio {
    pub num: u64,
    pub den: u64,
}

/// A school in a bar chart: its id, name and value (thousandths).
#[derive(Clone, Debug)]
pub struct SchoolEntry {
    pub school_id: String,
    pub name: String,
    pub value: u32,
}

/// A school in the hype analysis: Abitur average and demand ratio.
#[derive(Clone, Debug)]
pub struct HypeEntry {
    pub school_id: String,
    pub name: String,
    pub abitur: u32,
    pub demand: u32,
}

/// The entry of a school with a value.
pub open spec fn entry_of(s: School, value: u32) -> (Seq<char>, Seq<char>, u32) {
    (s.school_id@, s.name@, value)
}

/// The view of an entry.
pub open spec fn entry_view(e: SchoolEntry) -> (Seq<char>, Seq<char>, u32) {
    (e.school_id@, e.name@, e.value)
}

fn make_entry(s: &School, value: u32) -> (r: SchoolEntry)
    ensures
        entry_view(r) == entry_of(*s, value),
{
    SchoolEntry { school_id: s.school_id.clone(), name: s.name.clone(), value }
}

/// One more school in the prefix: its position joins the selection if the
/// test selects it.
pub proof fn lemma_select_step(schools: Seq<School>, p: spec_fn(School) -> bool, j: int)
    requires
        0 <= j < schools.len(),
    ensures
        select(schools.take(j + 1), p) == if p(schools[j]) {
            select(schools.take(j), p).push(j)
        } else {
            select(schools.take(j), p)
        },
{
    assert(schools.take(j + 1).drop_last() =~= schools.take(j));
    assert(schools.take(j + 1).last() == schools[j]);
}

pub proof fn lemma_select_all(schools: Seq<School>, p: spec_fn(School) -> bool)
    ensures
        select(schools.take(schools.len() as int), p) == select(schools, p),
{
    assert(schools.take(schools.len() as int) =~= schools);
}

pub proof fn lemma_select_none(schools: Seq<School>, p: spec_fn(School) -> bool)
    ensures
        select(schools.take(0), p) == Seq::<int>::empty(),
{
    assert(schools.take(0) =~= Seq::<School>::empty());
}

// ---------------------------------------------------------------------------
// Academic excellence

/// The school has an Abitur average.
pub open spec fn has_abitur() -> spec_fn(School) -> bool {
    |s: School| s.abitur_average is Some
}

/// The school's Abitur average, or 0.
pub open spec fn abitur_of(s: School) -> u32 {
    match s.abitur_average {
        Some(a) => a,
        None => 0,
    }
}

/// Ordering by Abitur average.
pub open spec fn abitur_key() -> spec_fn(School) -> int {
    |s: School| abitur_of(s) as int
}

/// Pass rate of at least 95%.
pub open spec fn pass_95_plus() -> spec_fn(School) -> bool {
    |s: School| s.abitur_pass_rate matches Some(r) && r >= 95000
}

/// Pass rate from 90% to below 95%.
pub open spec fn pass_90_95() -> spec_fn(School) -> bool {
    |s: School| s.abitur_pass_rate matches Some(r) && 90000 <= r && r < 95000
}

/// Pass rate below 90%.
pub open spec fn pass_below_90() -> spec_fn(School) -> bool {
    |s: School| s.abitur_pass_rate matches Some(r) && r < 90000
}

/// The school has a pass rate.
pub open spec fn has_pass_rate() -> spec_fn(School) -> bool {
    |s: School| s.abitur_pass_rate is Some
}

/// Top Abitur results and pass-rate bands.
#[derive(Clone, Debug)]
pub struct AcademicData {
    pub top_schools: Vec<SchoolEntry>,
    pub best_avg: u32,
    pub median_avg: u32,
    pub schools_rated: usize,
    pub total_schools: usize,
    pub pass_rate_95_plus: usize,
    pub pass_rate_90_95: usize,
    pub pass_rate_below_90: usize,
    /// The share of schools with a pass rate of at least 95%, in percent.
    pub pct_above_95: Ratio,
}

/// The keys of selected schools by a value.
pub open spec fn keys_by(schools: Seq<School>, sel: Seq<int>, value: spec_fn(School) -> int) -> Seq<i64> {
    Seq::new(sel.len(), |k: int| value(schools[sel[k]]) as i64)
}

/// A pass-rate band: at least `lo`, and below `hi` if given.
pub open spec fn band(lo: u32, hi: Option<u32>) -> spec_fn(School) -> bool {
    |s: School| s.abitur_pass_rate matches Some(x) && lo <= x && (match hi {
        Some(h) => x < h,
        None => true,
    })
}

/// Counts the schools whose pass rate a band selects.
fn count_pass_band(schools: &Vec<School>, lo: u32, hi: Option<u32>) -> (r: usize)
    ensures
        r == select(schools@, band(lo, hi)).len(),
{
    let mut count: usize = 0;
    let mut j: usize = 0;
    proof {
        lemma_select_none(schools@, band(lo, hi));
    }
    while j < schools.len()
        invariant
            j <= schools@.len(),
            count == select(schools@.take(j as int), band(lo, hi)).len(),
            count <= j,
        decreases schools@.len() - j,
    {
        proof {
            lemma_select_step(schools@, band(lo, hi), j as int);
        }
        let hit = match schools[j].abitur_pass_rate {
            Some(x) => lo <= x && match hi {
                Some(h) => x < h,
                None => true,
            },
            None => false,
        };
        assert(hit == band(lo, hi)(schools@[j as int]));
        if hit {
            count = count + 1;
        }
        j = j + 1;
    }
    proof {
        lemma_select_all(schools@, band(lo, hi));
    }
    count
}

/// Top Abitur results (lowest averages first, at most ten), the best and
/// the median average, and how many schools fall in each pass-rate band.
pub fn compute_academic(schools: &Vec<School>) -> (r: AcademicData)
    requires
        schools@.len() <= u32::MAX,
    ensures
        ({
            let sel = select(schools@, has_abitur());
            let keys = keys_by(schools@, sel, abitur_key());
            exists|order: Seq<int>| {
                &&& stable_order(keys, order)
                &&& r.top_schools@.len() == (if sel.len() < 10 { sel.len() } else { 10 })
                &&& forall|k: int| 0 <= k < r.top_schools@.len() ==> entry_view(#[trigger] r.top_schools@[k])
                    == entry_of(schools@[sel[order[k]]], abitur_of(schools@[sel[order[k]]]))
                &&& r.best_avg == (if sel.len() > 0 { abitur_of(schools@[sel[order[0]]]) } else { 0 })
                &&& r.median_avg == (if sel.len() > 0 {
                    abitur_of(schools@[sel[order[(sel.len() / 2) as int]]])
                } else {
                    0
                })
            }
        }),
        r.schools_rated == select(schools@, has_abitur()).len(),
        r.total_schools == schools@.len(),
        r.pass_rate_95_plus == select(schools@, pass_95_plus()).len(),
        r.pass_rate_90_95 == select(schools@, pass_90_95()).len(),
        r.pass_rate_below_90 == select(schools@, pass_below_90()).len(),
        r.pct_above_95 == (Ratio {
            num: (100 * select(schools@, pass_95_plus()).len()) as u64,
            den: select(schools@, has_pass_rate()).len() as u64,
        }),
{
    let ghost p = has_abitur();
    let mut sel: Vec<usize> = Vec::new();
    let mut keys: Vec<i64> = Vec::new();
    let mut j: usize = 0;
    proof {
        lemma_select_none(schools@, p);
    }
    while j < schools.len()
        invariant
            j <= schools@.len(),
            p == has_abitur(),
            sel@.map_values(|x: usize| x as int) == select(schools@.take(j as int), p),
            keys@.len() == sel@.len(),
            forall|k: int| 0 <= k < sel@.len() ==> (#[trigger] sel@[k]) < j,
            forall|k: int| 0 <= k < keys@.len() ==> #[trigger] keys@[k] == abitur_of(schools@[sel@[k] as int]) as i64,
        decreases schools@.len() - j,
    {
        proof {
            lemma_select_step(schools@, p, j as int);
        }
        match schools[j].abitur_average {
            Some(a) => {
                sel.push(j);
                keys.push(a as i64);
                assert(sel@.map_values(|x: usize| x as int) =~= select(schools@.take(j as int), p).push(j as int));
            },
            None => {},
        }
        j = j + 1;
    }
    proof {
        lemma_select_all(schools@, p);
    }
    let ghost selv = select(schools@, p);
    assert(keys@ =~= keys_by(schools@, selv, abitur_key()));
    let order = stable_indices(&keys);
    let ghost ord = order@.map_values(|x: usize| x as int);
    let m = sel.len();
    let top_n = if m < 10 { m } else { 10 };
    let mut top: Vec<SchoolEntry> = Vec::new();
    let mut k: usize = 0;
    while k < top_n
        invariant
            top_n <= m,
            m == sel@.len(),
            order@.len() == m,
            k <= top_n,
            top@.len() == k,
            selv == select(schools@, p),
            sel@.map_values(|x: usize| x as int) == selv,
            ord == order@.map_values(|x: usize| x as int),
            stable_order(keys_by(schools@, selv, abitur_key()), ord),
            forall|q: int| 0 <= q < sel@.len() ==> (#[trigger] sel@[q]) < schools@.len(),
            forall|q: int| 0 <= q < k ==> entry_view(#[trigger] top@[q]) == entry_of(
                schools@[selv[ord[q]]],
                abitur_of(schools@[selv[ord[q]]]),
            ),
        decreases top_n - k,
    {
        let o = order[k];
        assert(ord[k as int] == o as int);
        let i = sel[o];
        assert(selv[ord[k as int]] == i as int);
        let v = match schools[i].abitur_average {
            Some(a) => a,
            None => 0,
        };
        top.push(make_entry(&schools[i], v));
        k = k + 1;
    }
    let best = if m > 0 {
        let o = order[0];
        assert(ord[0] == o as int);
        let i = sel[o];
        assert(selv[ord[0]] == i as int);
        match schools[i].abitur_average {
            Some(a) => a,
            None => 0,
        }
    } else {
        0
    };
    let median = if m > 0 {
        let o = order[m / 2];
        assert(ord[(m / 2) as int] == o as int);
        let i = sel[o];
        assert(selv[ord[(m / 2) as int]] == i as int);
        match schools[i].abitur_average {
            Some(a) => a,
            None => 0,
        }
    } else {
        0
    };
    let c95 = count_pass_band(schools, 95000, None);
    let c90 = count_pass_band(schools, 90000, Some(95000));
    let c_low = count_pass_band(schools, 0, Some(90000));
    let c_all = count_pass_band(schools, 0, None);
    proof {
        assert(band(95000, None) =~= pass_95_plus());
        assert(band(90000, Some(95000)) =~= pass_90_95());
        assert(band(0, Some(90000)) =~= pass_below_90());
        assert(band(0, None) =~= has_pass_rate());
        lemma_select(schools@, pass_95_plus());
    }
    AcademicData {
        top_schools: top,
        best_avg: best,
        median_avg: median,
        schools_rated: m,
        total_schools: schools.len(),
        pass_rate_95_plus: c95,
        pass_rate_90_95: c90,
        pass_rate_below_90: c_low,
        pct_above_95: Ratio { num: 100 * (c95 as u64), den: c_all as u64 },
    }
}

// ---------------------------------------------------------------------------
// Supply and demand

/// The school has a demand ratio.
pub open spec fn has_demand() -> spec_fn(School) -> bool {
    |s: School| s.admission_requirements matches Some(a) && a.demand_ratio is Some
}

/// The school's demand ratio, or 0.
pub open spec fn demand_of(s: School) -> u32 {
    match s.admission_requirements {
        Some(a) => match a.demand_ratio {
            Some(d) => d,
            None => 0,
        },
        None => 0,
    }
}

fn demand_ratio_of(s: &School) -> (r: Option<u32>)
    ensures
        r is Some == has_demand()(*s),
        r is Some ==> r->0 == demand_of(*s),
{
    match &s.admission_requirements {
        Some(a) => a.demand_ratio,
        None => None,
    }
}

/// Ordering by demand ratio, highest first.
pub open spec fn neg_demand_key() -> spec_fn(School) -> int {
    |s: School| -(demand_of(s) as int)
}

/// The school accepts pupils after the 4th grade.
pub open spec fn accepts_4th() -> spec_fn(School) -> bool {
    |s: School| s.accepts_after_4th_grade == Some(true)
}

/// Sum of the student counts of the first `n` schools (none counts 0).
pub open spec fn students_sum(schools: Seq<School>) -> int
    decreases schools.len(),
{
    if schools.len() == 0 {
        0
    } else {
        students_sum(schools.drop_last()) + match schools.last().student_count {
            Some(c) => c as int,
            None => 0,
        }
    }
}

/// Sum of the teacher counts (none counts 0).
pub open spec fn teachers_sum(schools: Seq<School>) -> int
    decreases schools.len(),
{
    if schools.len() == 0 {
        0
    } else {
        teachers_sum(schools.drop_last()) + match schools.last().teacher_count {
            Some(c) => c as int,
            None => 0,
        }
    }
}

/// The districts in the order they first occur.
pub open spec fn district_list(schools: Seq<School>) -> Seq<Seq<char>>
    decreases schools.len(),
{
    if schools.len() == 0 {
        Seq::empty()
    } else {
        let pre = district_list(schools.drop_last());
        if pre.contains(schools.last().district@) {
            pre
        } else {
            pre.push(schools.last().district@)
        }
    }
}

/// The school lies in district `d`.
pub open spec fn in_district(d: Seq<char>) -> spec_fn(School) -> bool {
    |s: School| s.district@ == d
}

/// A district with its number of schools.
#[derive(Clone, Debug)]
pub struct DistrictCount {
    pub name: String,
    pub count: usize,
}

/// Totals, the most oversubscribed schools and the schools per district.
#[derive(Clone, Debug)]
pub struct SupplyDemandData {
    pub total_schools: usize,
    pub accept_4th: usize,
    /// Students per teacher over all schools.
    pub avg_student_teacher: Ratio,
    pub oversubscribed: Vec<SchoolEntry>,
    pub districts: Vec<DistrictCount>,
}

/// Counts the schools that accept pupils after the 4th grade.
fn count_accept_4th(schools: &Vec<School>) -> (r: usize)
    ensures
        r == select(schools@, accepts_4th()).len(),
{
    let mut count: usize = 0;
    let mut j: usize = 0;
    proof {
        lemma_select_none(schools@, accepts_4th());
    }
    while j < schools.len()
        invariant
            j <= schools@.len(),
            count == select(schools@.take(j as int), accepts_4th()).len(),
            count <= j,
        decreases schools@.len() - j,
    {
        proof {
            lemma_select_step(schools@, accepts_4th(), j as int);
        }
        if schools[j].accepts_after_4th_grade == Some(true) {
            count = count + 1;
        }
        j = j + 1;
    }
    proof {
        lemma_select_all(schools@, accepts_4th());
    }
    count
}

/// Districts in order of first occurrence, each with its number of schools.
pub fn count_districts(schools: &Vec<School>) -> (r: Vec<DistrictCount>)
    ensures
        r@.len() == district_list(schools@).len(),
        forall|k: int| 0 <= k < r@.len() ==> (#[trigger] r@[k]).name@ == district_list(schools@)[k]
            && r@[k].count == select(schools@, in_district(district_list(schools@)[k])).len(),
{
    let mut r: Vec<DistrictCount> = Vec::new();
    let mut j: usize = 0;
    while j < schools.len()
        invariant
            j <= schools@.len(),
            r@.len() == district_list(schools@.take(j as int)).len(),
            forall|k: int| 0 <= k < r@.len() ==> (#[trigger] r@[k]).name@ == district_list(schools@.take(j as int))[k]
                && r@[k].count == select(schools@.take(j as int), in_district(r@[k].name@)).len()
                && r@[k].count <= j,
            forall|a: int, b: int| 0 <= a < b < r@.len() ==> r@[a].name@ != r@[b].name@,
        decreases schools@.len() - j,
    {
        let ghost pre = schools@.take(j as int);
        let ghost nxt = schools@.take(j + 1);
        proof {
            assert(nxt.drop_last() =~= pre);
            assert(nxt.last() == schools@[j as int]);
        }
        let d = &schools[j].district;
        let mut k: usize = 0;
        while k < r.len()
            invariant
                k <= r@.len(),
                forall|q: int| 0 <= q < k ==> r@[q].name@ != d@,
            ensures
                k <= r@.len(),
                forall|q: int| 0 <= q < k ==> r@[q].name@ != d@,
                k < r@.len() ==> r@[k as int].name@ == d@,
            decreases r@.len() - k,
        {
            if r[k].name == *d {
                break;
            }
            k = k + 1;
        }
        let ghost old_r = r@;
        proof {
            assert forall|q: int| 0 <= q < old_r.len() implies select(nxt, in_district(old_r[q].name@)) == if old_r[q].name@ == d@ {
                select(pre, in_district(old_r[q].name@)).push(j as int)
            } else {
                select(pre, in_district(old_r[q].name@))
            } by {
                lemma_select_step(schools@, in_district(old_r[q].name@), j as int);
            }
        }
        if k < r.len() {
            assert(r@[k as int].name@ == d@);
            assert(district_list(pre).contains(d@)) by {
                assert(district_list(pre)[k as int] == d@);
            }
            let c = r[k].count + 1;
            let nm = r[k].name.clone();
            r.set(k, DistrictCount { name: nm, count: c });
        } else {
            assert(!district_list(pre).contains(d@)) by {
                if district_list(pre).contains(d@) {
                    let q = choose|q: int| 0 <= q < district_list(pre).len() && district_list(pre)[q] == d@;
                    assert(r@[q].name@ == d@);
                }
            }
            proof {
                lemma_select_step(schools@, in_district(d@), j as int);
                lemma_select_no_match(pre, d@);
            }
            r.push(DistrictCount { name: d.clone(), count: 1 });
        }
        j = j + 1;
    }
    assert(schools@.take(schools@.len() as int) =~= schools@);
    r
}

/// A district that does not occur selects no school.
proof fn lemma_select_no_match(schools: Seq<School>, d: Seq<char>)
    requires
        !district_list(schools).contains(d),
    ensures
        select(schools, in_district(d)).len() == 0,
    decreases schools.len(),
{
    if schools.len() > 0 {
        let pre = district_list(schools.drop_last());
        assert(!pre.contains(d)) by {
            if pre.contains(d) {
                let q = choose|q: int| 0 <= q < pre.len() && pre[q] == d;
                if !pre.contains(schools.last().district@) {
                    assert(pre.push(schools.last().district@)[q] == d);
                }
            }
        }
        lemma_select_no_match(schools.drop_last(), d);
        if schools.last().district@ == d {
            if pre.contains(d) {
            } else {
                assert(district_list(schools).last() == d);
            }
        }
    }
}

/// Totals of schools, early entry, students per teacher, the ten most
/// oversubscribed schools (highest demand ratio first) and the number of
/// schools per district (most first; districts with equal numbers in the
/// order they first occur).
pub fn compute_supply_demand(schools: &Vec<School>) -> (r: SupplyDemandData)
    requires
        schools@.len() <= u32::MAX,
        students_sum(schools@) <= u32::MAX,
        teachers_sum(schools@) <= u32::MAX,
    ensures
        r.total_schools == schools@.len(),
        r.accept_4th == select(schools@, accepts_4th()).len(),
        r.avg_student_teacher == (Ratio {
            num: students_sum(schools@) as u64,
            den: teachers_sum(schools@) as u64,
        }),
        ({
            let sel = select(schools@, has_demand());
            let keys = keys_by(schools@, sel, neg_demand_key());
            exists|order: Seq<int>| {
                &&& stable_order(keys, order)
                &&& r.oversubscribed@.len() == (if sel.len() < 10 { sel.len() } else { 10 })
                &&& forall|k: int| 0 <= k < r.oversubscribed@.len() ==> entry_view(
                    #[trigger] r.oversubscribed@[k],
                ) == entry_of(schools@[sel[order[k]]], demand_of(schools@[sel[order[k]]]))
            }
        }),
        ({
            let ds = district_list(schools@);
            let keys = Seq::new(ds.len(), |k: int| -(select(schools@, in_district(ds[k])).len() as int) as i64);
            exists|order: Seq<int>| {
                &&& stable_order(keys, order)
                &&& r.districts@.len() == ds.len()
                &&& forall|k: int| 0 <= k < ds.len() ==> (#[trigger] r.districts@[k]).name@ == ds[order[k]]
                    && r.districts@[k].count == select(schools@, in_district(ds[order[k]])).len()
            }
        }),
{
    let total_schools = schools.len();
    let accept_4th = count_accept_4th(schools);
    let mut students: u32 = 0;
    let mut teachers: u32 = 0;
    let mut j: usize = 0;
    while j < schools.len()
        invariant
            j <= schools@.len(),
            students == students_sum(schools@.take(j as int)),
            teachers == teachers_sum(schools@.take(j as int)),
            students_sum(schools@) <= u32::MAX,
            teachers_sum(schools@) <= u32::MAX,
        decreases schools@.len() - j,
    {
        proof {
            assert(schools@.take(j + 1).drop_last() =~= schools@.take(j as int));
            lemma_sums_monotone(schools@, j + 1);
        }
        let sc = match schools[j].student_count {
            Some(c) => c,
            None => 0,
        };
        let tc = match schools[j].teacher_count {
            Some(c) => c,
            None => 0,
        };
        students = students + sc;
        teachers = teachers + tc;
        j = j + 1;
    }
    assert(schools@.take(schools@.len() as int) =~= schools@);

    let ghost p = has_demand();
    let mut sel: Vec<usize> = Vec::new();
    let mut keys: Vec<i64> = Vec::new();
    let mut j: usize = 0;
    proof {
        lemma_select_none(schools@, p);
    }
    while j < schools.len()
        invariant
            j <= schools@.len(),
            p == has_demand(),
            sel@.map_values(|x: usize| x as int) == select(schools@.take(j as int), p),
            keys@.len() == sel@.len(),
            forall|k: int| 0 <= k < sel@.len() ==> (#[trigger] sel@[k]) < j,
            forall|k: int| 0 <= k < keys@.len() ==> #[trigger] keys@[k] == -(demand_of(schools@[sel@[k] as int]) as int) as i64,
        decreases schools@.len() - j,
    {
        proof {
            lemma_select_step(schools@, p, j as int);
        }
        match demand_ratio_of(&schools[j]) {
            Some(d) => {
                sel.push(j);
                keys.push(-(d as i64));
                assert(sel@.map_values(|x: usize| x as int) =~= select(schools@.take(j as int), p).push(j as int));
            },
            None => {},
        }
        j = j + 1;
    }
    proof {
        lemma_select_all(schools@, p);
    }
    let ghost selv = select(schools@, p);
    assert(keys@ =~= keys_by(schools@, selv, neg_demand_key()));
    let order = stable_indices(&keys);
    let ghost ord = order@.map_values(|x: usize| x as int);
    let m = sel.len();
    let top_n = if m < 10 { m } else { 10 };
    let mut top: Vec<SchoolEntry> = Vec::new();
    let mut k: usize = 0;
    while k < top_n
        invariant
            top_n <= m,
            m == sel@.len(),
            order@.len() == m,
            k <= top_n,
            top@.len() == k,
            selv == select(schools@, p),
            sel@.map_values(|x: usize| x as int) == selv,
            ord == order@.map_values(|x: usize| x as int),
            stable_order(keys_by(schools@, selv, neg_demand_key()), ord),
            forall|q: int| 0 <= q < sel@.len() ==> (#[trigger] sel@[q]) < schools@.len(),
            forall|q: int| 0 <= q < k ==> entry_view(#[trigger] top@[q]) == entry_of(
                schools@[selv[ord[q]]],
                demand_of(schools@[selv[ord[q]]]),
            ),
        decreases top_n - k,
    {
        let o = order[k];
        assert(ord[k as int] == o as int);
        let i = sel[o];
        assert(selv[ord[k as int]] == i as int);
        let v = match demand_ratio_of(&schools[i]) {
            Some(d) => d,
            None => 0,
        };
        top.push(make_entry(&schools[i], v));
        k = k + 1;
    }

    let counts = count_districts(schools);
    let ghost ds = district_list(schools@);
    proof {
        assert forall|k: int| 0 <= k < counts@.len() implies (#[trigger] counts@[k]).count <= schools@.len() by {
            lemma_select(schools@, in_district(ds[k]));
        }
    }
    let mut dkeys: Vec<i64> = Vec::new();
    let mut q: usize = 0;
    while q < counts.len()
        invariant
            q <= counts@.len(),
            counts@.len() == ds.len(),
            dkeys@.len() == q,
            schools@.len() <= u32::MAX,
            forall|k: int| 0 <= k < counts@.len() ==> (#[trigger] counts@[k]).count <= schools@.len(),
            forall|k: int| 0 <= k < q ==> #[trigger] dkeys@[k] == -(counts@[k].count as int) as i64,
        decreases counts@.len() - q,
    {
        dkeys.push(-(counts[q].count as i64));
        q = q + 1;
    }
    let dorder = stable_indices(&dkeys);
    let ghost dord = dorder@.map_values(|x: usize| x as int);
    assert(dkeys@ =~= Seq::new(ds.len(), |k: int| -(select(schools@, in_district(ds[k])).len() as int) as i64));
    let mut districts: Vec<DistrictCount> = Vec::new();
    let mut k: usize = 0;
    while k < dorder.len()
        invariant
            k <= dorder@.len(),
            dorder@.len() == counts@.len(),
            counts@.len() == ds.len(),
            districts@.len() == k,
            dord == dorder@.map_values(|x: usize| x as int),
            stable_order(dkeys@, dord),
            dkeys@.len() == ds.len(),
            forall|c: int| 0 <= c < counts@.len() ==> (#[trigger] counts@[c]).name@ == ds[c]
                && counts@[c].count == select(schools@, in_district(ds[c])).len(),
            forall|c: int| 0 <= c < k ==> (#[trigger] districts@[c]).name@ == ds[dord[c]]
                && districts@[c].count == select(schools@, in_district(ds[dord[c]])).len(),
        decreases dorder@.len() - k,
    {
        let o = dorder[k];
        assert(dord[k as int] == o as int);
        let entry = DistrictCount { name: counts[o].name.clone(), count: counts[o].count };
        districts.push(entry);
        k = k + 1;
    }
    SupplyDemandData {
        total_schools,
        accept_4th,
        avg_student_teacher: Ratio { num: students as u64, den: teachers as u64 },
        oversubscribed: top,
        districts,
    }
}

/// The sums over a prefix are no larger than over the whole.
proof fn lemma_sums_monotone(schools: Seq<School>, j: int)
    requires
        0 <= j <= schools.len(),
    ensures
        students_sum(schools.take(j)) <= students_sum(schools),
        teachers_sum(schools.take(j)) <= teachers_sum(schools),
        students_sum(schools.take(j)) >= 0,
        teachers_sum(schools.take(j)) >= 0,
    decreases schools.len() - j,
{
    if j < schools.len() {
        lemma_sums_monotone(schools, j + 1);
        assert(schools.take(j + 1).drop_last() =~= schools.take(j));
    } else {
        assert(schools.take(j) =~= schools);
    }
    lemma_sums_nonneg(schools.take(j));
}

proof fn lemma_sums_nonneg(schools: Seq<School>)
    ensures
        students_sum(schools) >= 0,
        teachers_sum(schools) >= 0,
    decreases schools.len(),
{
    if schools.len() > 0 {
        lemma_sums_nonneg(schools.drop_last());
    }
}

// ---------------------------------------------------------------------------
// Does hype equal quality?

/// The school has both an Abitur average and a demand ratio.
pub open spec fn has_both() -> spec_fn(School) -> bool {
    |s: School| s.abitur_average is Some && (s.admission_requirements matches Some(a) && a.demand_ratio is Some)
}

/// A hidden gem: better (lower) Abitur than the median, demand below 1.
pub open spec fn gem(median: u32) -> spec_fn(School) -> bool {
    |s: School| has_both()(s) && abitur_of(s) < median && demand_of(s) < 1000
}

/// Overhyped: worse Abitur than the median, demand above 1.2.
pub open spec fn hyped(median: u32) -> spec_fn(School) -> bool {
    |s: School| has_both()(s) && abitur_of(s) > median && demand_of(s) > 1200
}

/// In high demand (above 1.2).
pub open spec fn high_demand() -> spec_fn(School) -> bool {
    |s: School| has_both()(s) && demand_of(s) > 1200
}

/// In low demand (below 0.8).
pub open spec fn low_demand() -> spec_fn(School) -> bool {
    |s: School| has_both()(s) && demand_of(s) < 800
}

/// Sums over the analysed schools, from which the correlation between
/// demand (`x`) and Abitur (`y`) follows.
#[derive(Clone, Copy, Debug, PartialEq, Eq, Structural)]
pub struct HypeSums {
    pub n: u64,
    pub sum_x: u128,
    pub sum_y: u128,
    pub sum_xy: u128,
    pub sum_x2: u128,
    pub sum_y2: u128,
}

/// The sums over the analysed schools among the first schools.
pub open spec fn hype_sums(schools: Seq<School>) -> (int, int, int, int, int, int)
    decreases schools.len(),
{
    if schools.len() == 0 {
        (0, 0, 0, 0, 0, 0)
    } else {
        let pre = hype_sums(schools.drop_last());
        let s = schools.last();
        if has_both()(s) {
            let x = demand_of(s) as int;
            let y = abitur_of(s) as int;
            (pre.0 + 1, pre.1 + x, pre.2 + y, pre.3 + x * y, pre.4 + x * x, pre.5 + y * y)
        } else {
            pre
        }
    }
}

/// Hidden gems, overhyped schools and the best and worst combinations of
/// demand and results.
#[derive(Clone, Debug)]
pub struct HypeQualityData {
    pub sums: HypeSums,
    pub median_abitur: u32,
    pub hidden_gems: Vec<HypeEntry>,
    pub overhyped: Vec<HypeEntry>,
    pub best_combo: Option<SchoolEntry>,
    pub worst_combo: Option<SchoolEntry>,
    pub best_combo_demand: Option<u32>,
    pub worst_combo_demand: Option<u32>,
    pub schools_analyzed: usize,
}

/// The view of a hype entry.
pub open spec fn hype_view(e: HypeEntry) -> (Seq<char>, Seq<char>, u32, u32) {
    (e.school_id@, e.name@, e.abitur, e.demand)
}

/// The hype entry of a school.
pub open spec fn hype_of(s: School) -> (Seq<char>, Seq<char>, u32, u32) {
    (s.school_id@, s.name@, abitur_of(s), demand_of(s))
}

/// The listed schools: the selection in stable order of the key, at most
/// `limit` of them.
pub open spec fn ranked(
    schools: Seq<School>,
    p: spec_fn(School) -> bool,
    key: spec_fn(School) -> int,
    limit: nat,
    list: Seq<(Seq<char>, Seq<char>, u32, u32)>,
) -> bool {
    exists|order: Seq<int>| ranked_in(schools, p, key, limit, list, order)
}

/// The list is the first selected schools (at most `limit`) in the stable
/// `order` of the key.
pub open spec fn ranked_in(
    schools: Seq<School>,
    p: spec_fn(School) -> bool,
    key: spec_fn(School) -> int,
    limit: nat,
    list: Seq<(Seq<char>, Seq<char>, u32, u32)>,
    order: Seq<int>,
) -> bool {
    let sel = select(schools, p);
    &&& stable_order(keys_by(schools, sel, key), order)
    &&& list.len() == (if sel.len() < limit { sel.len() } else { limit })
    &&& forall|k: int| 0 <= k < list.len() ==> #[trigger] list[k] == hype_of(schools[sel[order[k]]])
}

fn make_hype(s: &School) -> (r: HypeEntry)
    requires
        has_both()(*s),
    ensures
        hype_view(r) == hype_of(*s),
{
    HypeEntry {
        school_id: s.school_id.clone(),
        name: s.name.clone(),
        abitur: match s.abitur_average {
            Some(a) => a,
            None => 0,
        },
        demand: match demand_ratio_of(s) {
            Some(d) => d,
            None => 0,
        },
    }
}

fn both_of(s: &School) -> (r: bool)
    ensures
        r == has_both()(*s),
{
    s.abitur_average.is_some() && demand_ratio_of(s).is_some()
}

/// The first `limit` hype entries of the schools a test selects, in stable
/// order of a key; `which` chooses the test and key: gems by ascending
/// Abitur, overhyped by descending demand.
fn ranked_entries(schools: &Vec<School>, median: u32, gems: bool) -> (r: Vec<HypeEntry>)
    requires
        schools@.len() <= u32::MAX,
    ensures
        gems ==> ranked(schools@, gem(median), abitur_key(), 3, r@.map_values(|e: HypeEntry| hype_view(e))),
        !gems ==> ranked(schools@, hyped(median), neg_demand_key(), 3, r@.map_values(|e: HypeEntry| hype_view(e))),
{
    let ghost p = if gems { gem(median) } else { hyped(median) };
    let ghost key = if gems { abitur_key() } else { neg_demand_key() };
    let mut sel: Vec<usize> = Vec::new();
    let mut keys: Vec<i64> = Vec::new();
    let mut j: usize = 0;
    proof {
        lemma_select_none(schools@, p);
    }
    while j < schools.len()
        invariant
            j <= schools@.len(),
            p == (if gems { gem(median) } else { hyped(median) }),
            key == (if gems { abitur_key() } else { neg_demand_key() }),
            sel@.map_values(|x: usize| x as int) == select(schools@.take(j as int), p),
            keys@.len() == sel@.len(),
            forall|k: int| 0 <= k < sel@.len() ==> (#[trigger] sel@[k]) < j,
            forall|k: int| 0 <= k < keys@.len() ==> #[trigger] keys@[k] == key(schools@[sel@[k] as int]) as i64,
        decreases schools@.len() - j,
    {
        proof {
            lemma_select_step(schools@, p, j as int);
        }
        let s = &schools[j];
        if both_of(s) {
            let a = match s.abitur_average {
                Some(a) => a,
                None => 0,
            };
            let d = match demand_ratio_of(s) {
                Some(d) => d,
                None => 0,
            };
            let hit = if gems { a < median && d < 1000 } else { a > median && d > 1200 };
            assert(hit == p(schools@[j as int]));
            if hit {
                sel.push(j);
                let kv: i64 = if gems { a as i64 } else { -(d as i64) };
                keys.push(kv);
                assert(sel@.map_values(|x: usize| x as int) =~= select(schools@.take(j as int), p).push(j as int));
            }
        } else {
            assert(!p(schools@[j as int]));
        }
        j = j + 1;
    }
    proof {
        lemma_select_all(schools@, p);
    }
    let ghost selv = select(schools@, p);
    assert(keys@ =~= keys_by(schools@, selv, key));
    let order = stable_indices(&keys);
    let ghost ord = order@.map_values(|x: usize| x as int);
    let m = sel.len();
    let top_n = if m < 3 { m } else { 3 };
    let mut out: Vec<HypeEntry> = Vec::new();
    let mut k: usize = 0;
    proof {
        lemma_select(schools@, p);
    }
    while k < top_n
        invariant
            top_n <= m,
            m == sel@.len(),
            order@.len() == m,
            k <= top_n,
            out@.len() == k,
            selv == select(schools@, p),
            p == (if gems { gem(median) } else { hyped(median) }),
            sel@.map_values(|x: usize| x as int) == selv,
            ord == order@.map_values(|x: usize| x as int),
            stable_order(keys_by(schools@, selv, key), ord),
            forall|q: int| 0 <= q < selv.len() ==> 0 <= #[trigger] selv[q] < schools@.len() && p(schools@[selv[q]]),
            forall|q: int| 0 <= q < k ==> hype_view(#[trigger] out@[q]) == hype_of(schools@[selv[ord[q]]]),
        decreases top_n - k,
    {
        let o = order[k];
        assert(ord[k as int] == o as int);
        let i = sel[o];
        assert(selv[ord[k as int]] == i as int);
        out.push(make_hype(&schools[i]));
        k = k + 1;
    }
    assert(out@.map_values(|e: HypeEntry| hype_view(e)).len() == top_n);
    proof {
        let lv = out@.map_values(|e: HypeEntry| hype_view(e));
        assert forall|q: int| 0 <= q < lv.len() implies #[trigger] lv[q] == hype_of(schools@[selv[ord[q]]]) by {}
        assert(ranked_in(schools@, p, key, 3, lv, ord));
    }
    out
}

/// Position (in `schools`) of the best combination among schools in high
/// demand: the first with the lowest Abitur average.
pub open spec fn is_best_combo(schools: Seq<School>, i: int) -> bool {
    &&& 0 <= i < schools.len()
    &&& high_demand()(schools[i])
    &&& forall|j: int| 0 <= j < schools.len() && high_demand()(#[trigger] schools[j]) ==> abitur_of(schools[i])
        < abitur_of(schools[j]) || (abitur_of(schools[i]) == abitur_of(schools[j]) && i <= j)
}

/// Position of the worst combination among schools in low demand: the last
/// with the highest Abitur average.
pub open spec fn is_worst_combo(schools: Seq<School>, i: int) -> bool {
    &&& 0 <= i < schools.len()
    &&& low_demand()(schools[i])
    &&& forall|j: int| 0 <= j < schools.len() && low_demand()(#[trigger] schools[j]) ==> abitur_of(schools[i])
        > abitur_of(schools[j]) || (abitur_of(schools[i]) == abitur_of(schools[j]) && i >= j)
}

/// The school records an Abitur average and a demand ratio.
pub open spec fn has_figures(s: School) -> bool {
    s.abitur_average is Some && (s.admission_requirements matches Some(ar) && ar.demand_ratio is Some)
}

/// The recorded Abitur average of a school (0 without one).
pub open spec fn abitur_figure(s: School) -> u32 {
    match s.abitur_average {
        Some(a) => a,
        None => 0,
    }
}

/// The recorded demand ratio of a school (0 without one).
pub open spec fn demand_figure(s: School) -> u32 {
    match s.admission_requirements {
        Some(ar) => match ar.demand_ratio {
            Some(d) => d,
            None => 0,
        },
        None => 0,
    }
}

/// A school's entry in the hype lists, from its recorded figures.
pub open spec fn figures_entry(s: School) -> (Seq<char>, Seq<char>, u32, u32) {
    (s.school_id@, s.name@, abitur_figure(s), demand_figure(s))
}

/// `e` is the entry of a school with both figures, an Abitur average below
/// `median` and a demand ratio below 1.0.
pub open spec fn gem_entry(schools: Seq<School>, median: u32, e: (Seq<char>, Seq<char>, u32, u32)) -> bool {
    exists|j: int|
        #![trigger schools[j]]
        0 <= j < schools.len() && has_figures(schools[j]) && abitur_figure(schools[j]) < median && demand_figure(
            schools[j],
        ) < 1000 && e == figures_entry(schools[j])
}

/// `e` is the entry of a school with both figures, an Abitur average above
/// `median` and a demand ratio above 1.2.
pub open spec fn hyped_entry(schools: Seq<School>, median: u32, e: (Seq<char>, Seq<char>, u32, u32)) -> bool {
    exists|j: int|
        #![trigger schools[j]]
        0 <= j < schools.len() && has_figures(schools[j]) && abitur_figure(schools[j]) > median && demand_figure(
            schools[j],
        ) > 1200 && e == figures_entry(schools[j])
}

/// The hidden gems listed are at most three schools with both figures, an
/// Abitur average below the median and a demand ratio below 1.0, by
/// ascending Abitur average; the overhyped ones at most three with an
/// Abitur average above the median and a demand ratio above 1.2, by
/// descending demand ratio.
pub proof fn lemma_hype_lists(
    schools: Seq<School>,
    median: u32,
    gems: Seq<(Seq<char>, Seq<char>, u32, u32)>,
    over: Seq<(Seq<char>, Seq<char>, u32, u32)>,
)
    requires
        ranked(schools, gem(median), abitur_key(), 3, gems),
        ranked(schools, hyped(median), neg_demand_key(), 3, over),
    ensures
        gems.len() <= 3,
        over.len() <= 3,
        forall|k: int| 0 <= k < gems.len() ==> gem_entry(schools, median, #[trigger] gems[k]),
        forall|a: int, b: int| 0 <= a < b < gems.len() ==> (#[trigger] gems[a]).2 <= (#[trigger] gems[b]).2,
        forall|k: int| 0 <= k < over.len() ==> hyped_entry(schools, median, #[trigger] over[k]),
        forall|a: int, b: int| 0 <= a < b < over.len() ==> (#[trigger] over[a]).3 >= (#[trigger] over[b]).3,
{
    let sel = select(schools, gem(median));
    lemma_select(schools, gem(median));
    let order = choose|order: Seq<int>| ranked_in(schools, gem(median), abitur_key(), 3, gems, order);
    assert forall|k: int| 0 <= k < gems.len() implies gem_entry(schools, median, #[trigger] gems[k]) by {
        let j = sel[order[k]];
        assert(gems[k] == hype_of(schools[j]));
        assert(gem(median)(schools[j]));
    }
    assert forall|a: int, b: int| 0 <= a < b < gems.len() implies (#[trigger] gems[a]).2 <= (#[trigger] gems[b]).2 by {
        let keys = keys_by(schools, sel, abitur_key());
        assert(gems[a] == hype_of(schools[sel[order[a]]]));
        assert(gems[b] == hype_of(schools[sel[order[b]]]));
        assert(keys[order[a]] <= keys[order[b]]);
    }
    let sel2 = select(schools, hyped(median));
    lemma_select(schools, hyped(median));
    let order2 = choose|order: Seq<int>| ranked_in(schools, hyped(median), neg_demand_key(), 3, over, order);
    assert forall|k: int| 0 <= k < over.len() implies hyped_entry(schools, median, #[trigger] over[k]) by {
        let j = sel2[order2[k]];
        assert(over[k] == hype_of(schools[j]));
        assert(hyped(median)(schools[j]));
    }
    assert forall|a: int, b: int| 0 <= a < b < over.len() implies (#[trigger] over[a]).3 >= (#[trigger] over[b]).3 by {
        let keys = keys_by(schools, sel2, neg_demand_key());
        assert(over[a] == hype_of(schools[sel2[order2[a]]]));
        assert(over[b] == hype_of(schools[sel2[order2[b]]]));
        assert(keys[order2[a]] <= keys[order2[b]]);
    }
}

/// Schools selected by three tests that never hold together and, between
/// them, hold exactly where a fourth does, add up to the fourth's.
proof fn lemma_select_three(
    schools: Seq<School>,
    p: spec_fn(School) -> bool,
    q: spec_fn(School) -> bool,
    r: spec_fn(School) -> bool,
    u: spec_fn(School) -> bool,
)
    requires
        forall|s: School| #[trigger] u(s) == (p(s) || q(s) || r(s)),
        forall|s: School| !(#[trigger] p(s) && q(s)) && !(p(s) && r(s)) && !(q(s) && r(s)),
    ensures
        select(schools, p).len() + select(schools, q).len() + select(schools, r).len() == select(schools, u).len(),
    decreases schools.len(),
{
    if schools.len() > 0 {
        lemma_select_three(schools.drop_last(), p, q, r, u);
        let s = schools.last();
        assert(u(s) == (p(s) || q(s) || r(s)));
        assert(!(p(s) && q(s)) && !(p(s) && r(s)) && !(q(s) && r(s)));
    }
}

/// The pass-rate bands: at least 95%, from 90% to below 95%, below 90%.
/// Each school with a pass rate falls in exactly one of them, so their
/// counts add up to the number of schools with a pass rate.
pub proof fn lemma_pass_bands(schools: Seq<School>, s: School)
    ensures
        pass_95_plus()(s) == (s.abitur_pass_rate matches Some(r) && r >= 95000),
        pass_90_95()(s) == (s.abitur_pass_rate matches Some(r) && 90000 <= r && r < 95000),
        pass_below_90()(s) == (s.abitur_pass_rate matches Some(r) && r < 90000),
        select(schools, pass_95_plus()).len() + select(schools, pass_90_95()).len() + select(
            schools,
            pass_below_90(),
        ).len() == select(schools, has_pass_rate()).len(),
{
    assert forall|x: School| #[trigger] has_pass_rate()(x) == (pass_95_plus()(x) || pass_90_95()(x) || pass_below_90()(x)) by {}
    assert forall|x: School|
        !(#[trigger] pass_95_plus()(x) && pass_90_95()(x)) && !(pass_95_plus()(x) && pass_below_90()(x)) && !(
        pass_90_95()(x) && pass_below_90()(x)) by {}
    lemma_select_three(schools, pass_95_plus(), pass_90_95(), pass_below_90(), has_pass_rate());
}

/// In the order of the top Abitur results, the Abitur averages never fall:
/// the best (lowest) average comes first.
pub proof fn lemma_top_results_ascending(schools: Seq<School>, order: Seq<int>, a: int, b: int)
    requires
        stable_order(keys_by(schools, select(schools, has_abitur()), abitur_key()), order),
        0 <= a < b < order.len(),
    ensures
        ({
            let sel = select(schools, has_abitur());
            &&& schools[sel[order[a]]].abitur_average is Some
            &&& abitur_figure(schools[sel[order[a]]]) <= abitur_figure(schools[sel[order[b]]])
        }),
{
    let sel = select(schools, has_abitur());
    lemma_select(schools, has_abitur());
    let keys = keys_by(schools, sel, abitur_key());
    assert(keys[order[a]] <= keys[order[b]]);
    assert(0 <= order[a] < sel.len());
    assert(has_abitur()(schools[sel[order[a]]]));
}

/// In the order of the most oversubscribed schools, the demand ratios
/// never rise: the highest demand comes first.
pub proof fn lemma_oversubscribed_descending(schools: Seq<School>, order: Seq<int>, a: int, b: int)
    requires
        stable_order(keys_by(schools, select(schools, has_demand()), neg_demand_key()), order),
        0 <= a < b < order.len(),
    ensures
        ({
            let sel = select(schools, has_demand());
            &&& schools[sel[order[a]]].admission_requirements matches Some(ar) && ar.demand_ratio is Some
            &&& demand_figure(schools[sel[order[a]]]) >= demand_figure(schools[sel[order[b]]])
        }),
{
    let sel = select(schools, has_demand());
    lemma_select(schools, has_demand());
    let keys = keys_by(schools, sel, neg_demand_key());
    assert(keys[order[a]] <= keys[order[b]]);
    assert(0 <= order[a] < sel.len());
    assert(has_demand()(schools[sel[order[a]]]));
}

/// The worst combination is a school in low demand (below 0.8) with the
/// highest Abitur average of all such schools, the last of them when
/// several share it.
pub proof fn lemma_worst_combo_highest(schools: Seq<School>, i: int)
    requires
        is_worst_combo(schools, i),
    ensures
        has_figures(schools[i]),
        demand_figure(schools[i]) < 800,
        forall|j: int|
            0 <= j < schools.len() && has_figures(#[trigger] schools[j]) && demand_figure(schools[j]) < 800
                ==> abitur_figure(schools[i]) >= abitur_figure(schools[j]),
        forall|j: int|
            i < j < schools.len() && has_figures(#[trigger] schools[j]) && demand_figure(schools[j]) < 800
                ==> abitur_figure(schools[i]) > abitur_figure(schools[j]),
{
    assert forall|j: int|
        0 <= j < schools.len() && has_figures(#[trigger] schools[j]) && demand_figure(schools[j])
            < 800 implies low_demand()(schools[j]) by {}
}

/// The best combination is a school in high demand (above 1.2) with the
/// lowest Abitur average of all such schools, the first of them when
/// several share it.
pub proof fn lemma_best_combo_lowest(schools: Seq<School>, i: int)
    requires
        is_best_combo(schools, i),
    ensures
        has_figures(schools[i]),
        demand_figure(schools[i]) > 1200,
        forall|j: int|
            0 <= j < schools.len() && has_figures(#[trigger] schools[j]) && demand_figure(schools[j]) > 1200
                ==> abitur_figure(schools[i]) <= abitur_figure(schools[j]),
        forall|j: int|
            0 <= j < i && has_figures(#[trigger] schools[j]) && demand_figure(schools[j]) > 1200
                ==> abitur_figure(schools[i]) < abitur_figure(schools[j]),
{
    assert forall|j: int|
        0 <= j < schools.len() && has_figures(#[trigger] schools[j]) && demand_figure(schools[j])
            > 1200 implies high_demand()(schools[j]) by {}
}

/// Finds the best (`best`) or worst combination.
fn extreme_combo(schools: &Vec<School>, best: bool) -> (r: Option<usize>)
    ensures
        best ==> match r {
            Some(i) => is_best_combo(schools@, i as int),
            None => forall|j: int| 0 <= j < schools@.len() ==> !high_demand()(#[trigger] schools@[j]),
        },
        !best ==> match r {
            Some(i) => is_worst_combo(schools@, i as int),
            None => forall|j: int| 0 <= j < schools@.len() ==> !low_demand()(#[trigger] schools@[j]),
        },
{
    let ghost p = if best { high_demand() } else { low_demand() };
    let mut found: Option<usize> = None;
    let mut j: usize = 0;
    while j < schools.len()
        invariant
            j <= schools@.len(),
            p == (if best { high_demand() } else { low_demand() }),
            match found {
                Some(i) => i < j && p(schools@[i as int]) && forall|q: int| 0 <= q < j && p(#[trigger] schools@[q]) ==> (
                if best {
                    abitur_of(schools@[i as int]) < abitur_of(schools@[q]) || (abitur_of(schools@[i as int])
                        == abitur_of(schools@[q]) && i <= q)
                } else {
                    abitur_of(schools@[i as int]) > abitur_of(schools@[q]) || (abitur_of(schools@[i as int])
                        == abitur_of(schools@[q]) && i >= q)
                }),
                None => forall|q: int| 0 <= q < j ==> !p(#[trigger] schools@[q]),
            },
        decreases schools@.len() - j,
    {
        let s = &schools[j];
        if both_of(s) {
            let a = match s.abitur_average {
                Some(a) => a,
                None => 0,
            };
            let d = match demand_ratio_of(s) {
                Some(d) => d,
                None => 0,
            };
            let hit = if best { d > 1200 } else { d < 800 };
            assert(hit == p(schools@[j as int]));
            if hit {
                match found {
                    Some(i) => {
                        let cur = match schools[i].abitur_average {
                            Some(c) => c,
                            None => 0,
                        };
                        let replace = if best { a < cur } else { a >= cur };
                        if replace {
                            found = Some(j);
                        }
                    },
                    None => {
                        found = Some(j);
                    },
                }
            }
        } else {
            assert(!p(schools@[j as int]));
        }
        j = j + 1;
    }
    found
}

/// Hidden gems (at most three, best Abitur first), overhyped schools (at
/// most three, highest demand first), the best and worst combinations, and
/// the sums for the correlation, over the schools with both an Abitur
/// average and a demand ratio. The median is the Abitur average at the
/// middle position (upper middle for an even number) of the ascending
/// order, or 2.0 when no school is analysed.
pub fn compute_hype_quality(schools: &Vec<School>) -> (r: HypeQualityData)
    requires
        schools@.len() <= u32::MAX,
    ensures
        r.schools_analyzed == select(schools@, has_both()).len(),
        r.sums.n == hype_sums(schools@).0 && r.sums.sum_x == hype_sums(schools@).1 && r.sums.sum_y == hype_sums(
            schools@,
        ).2 && r.sums.sum_xy == hype_sums(schools@).3 && r.sums.sum_x2 == hype_sums(schools@).4
            && r.sums.sum_y2 == hype_sums(schools@).5,
        ({
            let sel = select(schools@, has_both());
            if sel.len() == 0 {
                r.median_abitur == 2000
            } else {
                exists|order: Seq<int>| {
                    &&& #[trigger] stable_order(keys_by(schools@, sel, abitur_key()), order)
                    &&& r.median_abitur == abitur_of(schools@[sel[order[(sel.len() / 2) as int]]])
                }
            }
        }),
        ranked(schools@, gem(r.median_abitur), abitur_key(), 3, r.hidden_gems@.map_values(
            |e: HypeEntry| hype_view(e),
        )),
        ranked(schools@, hyped(r.median_abitur), neg_demand_key(), 3, r.overhyped@.map_values(
            |e: HypeEntry| hype_view(e),
        )),
        match r.best_combo {
            Some(e) => exists|i: int| is_best_combo(schools@, i) && entry_view(e) == entry_of(schools@[i], abitur_of(schools@[i]))
                && r.best_combo_demand == Some(demand_of(schools@[i])),
            None => r.best_combo_demand is None && forall|j: int| 0 <= j < schools@.len() ==> !high_demand()(#[trigger] schools@[j]),
        },
        match r.worst_combo {
            Some(e) => exists|i: int| is_worst_combo(schools@, i) && entry_view(e) == entry_of(schools@[i], abitur_of(schools@[i]))
                && r.worst_combo_demand == Some(demand_of(schools@[i])),
            None => r.worst_combo_demand is None && forall|j: int| 0 <= j < schools@.len() ==> !low_demand()(#[trigger] schools@[j]),
        },
{
    let ghost p = has_both();
    let mut sel: Vec<usize> = Vec::new();
    let mut keys: Vec<i64> = Vec::new();
    let mut n: u64 = 0;
    let mut sx: u128 = 0;
    let mut sy: u128 = 0;
    let mut sxy: u128 = 0;
    let mut sx2: u128 = 0;
    let mut sy2: u128 = 0;
    let mut j: usize = 0;
    proof {
        lemma_select_none(schools@, p);
        assert(schools@.take(0) =~= Seq::<School>::empty());
    }
    while j < schools.len()
        invariant
            j <= schools@.len(),
            schools@.len() <= u32::MAX,
            p == has_both(),
            sel@.map_values(|x: usize| x as int) == select(schools@.take(j as int), p),
            keys@.len() == sel@.len(),
            forall|k: int| 0 <= k < sel@.len() ==> (#[trigger] sel@[k]) < j,
            forall|k: int| 0 <= k < keys@.len() ==> #[trigger] keys@[k] == abitur_of(schools@[sel@[k] as int]) as i64,
            hype_sums(schools@.take(j as int)) == (n as int, sx as int, sy as int, sxy as int, sx2 as int, sy2 as int),
            n <= j,
            sx <= j * 0x1_0000_0000,
            sy <= j * 0x1_0000_0000,
            sxy <= j * 0x1_0000_0000_0000_0000,
            sx2 <= j * 0x1_0000_0000_0000_0000,
            sy2 <= j * 0x1_0000_0000_0000_0000,
        decreases schools@.len() - j,
    {
        proof {
            lemma_select_step(schools@, p, j as int);
            assert(schools@.take(j + 1).drop_last() =~= schools@.take(j as int));
            assert(schools@.take(j + 1).last() == schools@[j as int]);
        }
        let s = &schools[j];
        if both_of(s) {
            let a = match s.abitur_average {
                Some(a) => a,
                None => 0,
            };
            let d = match demand_ratio_of(s) {
                Some(d) => d,
                None => 0,
            };
            sel.push(j);
            keys.push(a as i64);
            assert(sel@.map_values(|x: usize| x as int) =~= select(schools@.take(j as int), p).push(j as int));
            let x = d as u128;
            let y = a as u128;
            proof {
                assert(x * y <= 0xffff_ffff * 0xffff_ffff) by (nonlinear_arith)
                    requires x <= 0xffff_ffff, y <= 0xffff_ffff;
                assert(x * x <= 0xffff_ffff * 0xffff_ffff) by (nonlinear_arith)
                    requires x <= 0xffff_ffff;
                assert(y * y <= 0xffff_ffff * 0xffff_ffff) by (nonlinear_arith)
                    requires y <= 0xffff_ffff;
            }
            n = n + 1;
            sx = sx + x;
            sy = sy + y;
            sxy = sxy + x * y;
            sx2 = sx2 + x * x;
            sy2 = sy2 + y * y;
        }
        j = j + 1;
    }
    proof {
        lemma_select_all(schools@, p);
        assert(schools@.take(schools@.len() as int) =~= schools@);
    }
    let ghost selv = select(schools@, p);
    assert(keys@ =~= keys_by(schools@, selv, abitur_key()));
    let m = sel.len();
    let median: u32 = if m == 0 {
        2000
    } else {
        let order = stable_indices(&keys);
        let ghost ord = order@.map_values(|x: usize| x as int);
        let o = order[m / 2];
        assert(ord[(m / 2) as int] == o as int);
        let i = sel[o];
        assert(selv[ord[(m / 2) as int]] == i as int);
        match schools[i].abitur_average {
            Some(a) => a,
            None => 0,
        }
    };
    let gems = ranked_entries(schools, median, true);
    let hyped_list = ranked_entries(schools, median, false);
    let best = extreme_combo(schools, true);
    let worst = extreme_combo(schools, false);
    let (best_combo, best_combo_demand) = match best {
        Some(i) => {
            let v = match schools[i].abitur_average {
                Some(a) => a,
                None => 0,
            };
            (Some(make_entry(&schools[i], v)), demand_ratio_of(&schools[i]))
        },
        None => (None, None),
    };
    let (worst_combo, worst_combo_demand) = match worst {
        Some(i) => {
            let v = match schools[i].abitur_average {
                Some(a) => a,
                None => 0,
            };
            (Some(make_entry(&schools[i], v)), demand_ratio_of(&schools[i]))
        },
        None => (None, None),
    };
    HypeQualityData {
        sums: HypeSums { n, sum_x: sx, sum_y: sy, sum_xy: sxy, sum_x2: sx2, sum_y2: sy2 },
        median_abitur: median,
        hidden_gems: gems,
        overhyped: hyped_list,
        best_combo,
        worst_combo,
        best_combo_demand,
        worst_combo_demand,
        schools_analyzed: m,
    }
}

// ---------------------------------------------------------------------------
// Averages over groups of schools

/// A value recorded for some schools.
#[derive(Clone, Copy, Debug, PartialEq, Eq, Structural)]
pub enum Metric {
    /// Abitur average (thousandths).
    Abitur,
    /// Abitur pass rate (thousandths of a percent).
    PassRate,
    /// Demand ratio (thousandths).
    Demand,
    /// Number of students.
    Size,
}

/// The value of a metric for a school, if recorded.
pub open spec fn metric_of(m: Metric, s: School) -> Option<u32> {
    match m {
        Metric::Abitur => s.abitur_average,
        Metric::PassRate => s.abitur_pass_rate,
        Metric::Demand => if has_demand()(s) { Some(demand_of(s)) } else { None },
        Metric::Size => s.student_count,
    }
}

fn metric_value(m: Metric, s: &School) -> (r: Option<u32>)
    ensures
        r == metric_of(m, *s),
{
    match m {
        Metric::Abitur => s.abitur_average,
        Metric::PassRate => s.abitur_pass_rate,
        Metric::Demand => demand_ratio_of(s),
        Metric::Size => s.student_count,
    }
}

/// Sum and number of the recorded values of a metric over the schools a
/// test selects.
pub open spec fn metric_total(schools: Seq<School>, p: spec_fn(School) -> bool, m: Metric) -> (int, int)
    decreases schools.len(),
{
    if schools.len() == 0 {
        (0, 0)
    } else {
        let pre = metric_total(schools.drop_last(), p, m);
        let s = schools.last();
        if p(s) && metric_of(m, s) is Some {
            (pre.0 + metric_of(m, s)->0 as int, pre.1 + 1)
        } else {
            pre
        }
    }
}

/// The average of a metric over the selected schools, as a fraction.
pub open spec fn metric_average(schools: Seq<School>, p: spec_fn(School) -> bool, m: Metric) -> Ratio {
    Ratio { num: metric_total(schools, p, m).0 as u64, den: metric_total(schools, p, m).1 as u64 }
}

proof fn lemma_metric_total_bounds(schools: Seq<School>, p: spec_fn(School) -> bool, m: Metric)
    ensures
        0 <= metric_total(schools, p, m).1 <= schools.len(),
        0 <= metric_total(schools, p, m).0 <= metric_total(schools, p, m).1 * 0xffff_ffff,
    decreases schools.len(),
{
    if schools.len() > 0 {
        lemma_metric_total_bounds(schools.drop_last(), p, m);
    }
}

/// The average of a metric over the schools a test selects; `group`
/// chooses the test (see `GroupTest`).
fn average_over(schools: &Vec<School>, group: &GroupTest, m: Metric) -> (r: Ratio)
    requires
        schools@.len() <= u32::MAX,
    ensures
        r == metric_average(schools@, group_pred(*group), m),
{
    let ghost p = group_pred(*group);
    let mut sum: u64 = 0;
    let mut count: u64 = 0;
    let mut j: usize = 0;
    assert(schools@.take(0) =~= Seq::<School>::empty());
    while j < schools.len()
        invariant
            j <= schools@.len(),
            schools@.len() <= u32::MAX,
            p == group_pred(*group),
            metric_total(schools@.take(j as int), p, m) == (sum as int, count as int),
            count <= j,
            sum <= count * 0xffff_ffff,
        decreases schools@.len() - j,
    {
        proof {
            assert(schools@.take(j + 1).drop_last() =~= schools@.take(j as int));
            assert(schools@.take(j + 1).last() == schools@[j as int]);
        }
        if group_member(group, &schools[j]) {
            match metric_value(m, &schools[j]) {
                Some(v) => {
                    sum = sum + v as u64;
                    count = count + 1;
                },
                None => {},
            }
        }
        j = j + 1;
    }
    assert(schools@.take(schools@.len() as int) =~= schools@);
    Ratio { num: sum, den: count }
}

/// Which schools a group holds.
#[derive(Clone, Debug)]
pub enum GroupTest {
    /// Every school.
    All,
    /// Schools run by a private operator (`traeger` is `privat`).
    Private,
    /// All other schools.
    Public,
    /// Schools that accept pupils after the 4th grade.
    EarlyEntry,
    /// All other schools.
    Standard,
    /// Schools in the named district.
    District(String),
}

/// The test of a group.
pub open spec fn group_pred(g: GroupTest) -> spec_fn(School) -> bool {
    match g {
        GroupTest::All => |s: School| true,
        GroupTest::Private => |s: School| s.traeger matches Some(t) && t@ == "privat"@,
        GroupTest::Public => |s: School| !(s.traeger matches Some(t) && t@ == "privat"@),
        GroupTest::EarlyEntry => |s: School| s.accepts_after_4th_grade == Some(true),
        GroupTest::Standard => |s: School| s.accepts_after_4th_grade != Some(true),
        GroupTest::District(d) => in_district(d@),
    }
}

fn group_member(g: &GroupTest, s: &School) -> (r: bool)
    ensures
        r == group_pred(*g)(*s),
{
    match g {
        GroupTest::All => true,
        GroupTest::Private => match &s.traeger {
            Some(t) => crate::text::str_eq(t.as_str(), "privat"),
            None => false,
        },
        GroupTest::Public => match &s.traeger {
            Some(t) => !crate::text::str_eq(t.as_str(), "privat"),
            None => true,
        },
        GroupTest::EarlyEntry => s.accepts_after_4th_grade == Some(true),
        GroupTest::Standard => s.accepts_after_4th_grade != Some(true),
        GroupTest::District(d) => s.district == *d,
    }
}

/// Counts the schools of a group.
fn group_size(schools: &Vec<School>, group: &GroupTest) -> (r: usize)
    ensures
        r == select(schools@, group_pred(*group)).len(),
{
    let mut count: usize = 0;
    let mut j: usize = 0;
    proof {
        lemma_select_none(schools@, group_pred(*group));
    }
    while j < schools.len()
        invariant
            j <= schools@.len(),
            count == select(schools@.take(j as int), group_pred(*group)).len(),
            count <= j,
        decreases schools@.len() - j,
    {
        proof {
            lemma_select_step(schools@, group_pred(*group), j as int);
        }
        if group_member(group, &schools[j]) {
            count = count + 1;
        }
        j = j + 1;
    }
    proof {
        lemma_select_all(schools@, group_pred(*group));
    }
    count
}

/// Schools selected by a test and by its opposite add up to all schools.
proof fn lemma_select_complement(schools: Seq<School>, p: spec_fn(School) -> bool, q: spec_fn(School) -> bool)
    requires
        forall|s: School| #[trigger] q(s) == !p(s),
    ensures
        select(schools, p).len() + select(schools, q).len() == schools.len(),
    decreases schools.len(),
{
    if schools.len() > 0 {
        lemma_select_complement(schools.drop_last(), p, q);
        assert(q(schools.last()) == !p(schools.last()));
    }
}

/// Schools selected by two tests that agree on every school are the same.
proof fn lemma_select_same(schools: Seq<School>, p: spec_fn(School) -> bool, q: spec_fn(School) -> bool)
    requires
        forall|s: School| #[trigger] q(s) == p(s),
    ensures
        select(schools, p) == select(schools, q),
    decreases schools.len(),
{
    if schools.len() > 0 {
        lemma_select_same(schools.drop_last(), p, q);
        assert(q(schools.last()) == p(schools.last()));
    }
}

/// The two sides of each comparison make up all the schools: private and
/// public, early entry and standard; and the early-entry side is the number
/// of schools that accept pupils after the 4th grade.
pub proof fn lemma_groups_cover_all(schools: Seq<School>)
    ensures
        select(schools, group_pred(GroupTest::Private)).len() + select(schools, group_pred(GroupTest::Public)).len()
            == schools.len(),
        select(schools, group_pred(GroupTest::EarlyEntry)).len() + select(schools, group_pred(GroupTest::Standard)).len()
            == schools.len(),
        select(schools, group_pred(GroupTest::EarlyEntry)) == select(schools, accepts_4th()),
{
    lemma_select_complement(schools, group_pred(GroupTest::Private), group_pred(GroupTest::Public));
    lemma_select_complement(schools, group_pred(GroupTest::EarlyEntry), group_pred(GroupTest::Standard));
    lemma_select_same(schools, group_pred(GroupTest::EarlyEntry), accepts_4th());
}

/// The value of a fraction is below that of another (a fraction with
/// denominator 0 stands for zero).
pub open spec fn ratio_below(a: Ratio, b: Ratio) -> bool {
    let (an, ad) = if a.den == 0 { (0int, 1int) } else { (a.num as int, a.den as int) };
    let (bn, bd) = if b.den == 0 { (0int, 1int) } else { (b.num as int, b.den as int) };
    an * bd < bn * ad
}

/// Whether the value of `a` is below that of `b`.
pub fn ratio_lt(a: Ratio, b: Ratio) -> (r: bool)
    ensures
        r == ratio_below(a, b),
{
    let (an, ad): (u128, u128) = if a.den == 0 { (0, 1) } else { (a.num as u128, a.den as u128) };
    let (bn, bd): (u128, u128) = if b.den == 0 { (0, 1) } else { (b.num as u128, b.den as u128) };
    proof {
        assert(an * bd <= 0xffff_ffff_ffff_ffff * 0xffff_ffff_ffff_ffff) by (nonlinear_arith)
            requires an <= 0xffff_ffff_ffff_ffff, bd <= 0xffff_ffff_ffff_ffff;
        assert(bn * ad <= 0xffff_ffff_ffff_ffff * 0xffff_ffff_ffff_ffff) by (nonlinear_arith)
            requires bn <= 0xffff_ffff_ffff_ffff, ad <= 0xffff_ffff_ffff_ffff;
    }
    an * bd < bn * ad
}

/// Counts, averages and staffing of one group.
#[derive(Clone, Debug)]
pub struct GroupStats {
    pub count: usize,
    pub abitur: Ratio,
    pub pass_rate: Ratio,
    pub demand: Ratio,
    pub size: Ratio,
    /// `(students, teachers)` of the members with both counts and at least
    /// one teacher, whose students-per-teacher figures are averaged.
    pub staffing: Vec<(u32, u32)>,
}

/// The members with students and at least one teacher.
pub open spec fn staffed(g: GroupTest) -> spec_fn(School) -> bool {
    |s: School| group_pred(g)(s) && s.student_count is Some && (s.teacher_count matches Some(t) && t > 0)
}

/// The figures of a group.
pub fn group_stats(schools: &Vec<School>, group: &GroupTest) -> (r: GroupStats)
    requires
        schools@.len() <= u32::MAX,
    ensures
        r.count == select(schools@, group_pred(*group)).len(),
        r.abitur == metric_average(schools@, group_pred(*group), Metric::Abitur),
        r.pass_rate == metric_average(schools@, group_pred(*group), Metric::PassRate),
        r.demand == metric_average(schools@, group_pred(*group), Metric::Demand),
        r.size == metric_average(schools@, group_pred(*group), Metric::Size),
        r.staffing@.len() == select(schools@, staffed(*group)).len(),
        forall|k: int| 0 <= k < r.staffing@.len() ==> #[trigger] r.staffing@[k] == (
            schools@[select(schools@, staffed(*group))[k]].student_count->0,
            schools@[select(schools@, staffed(*group))[k]].teacher_count->0,
        ),
{
    let count = group_size(schools, group);
    let abitur = average_over(schools, group, Metric::Abitur);
    let pass_rate = average_over(schools, group, Metric::PassRate);
    let demand = average_over(schools, group, Metric::Demand);
    let size = average_over(schools, group, Metric::Size);
    let ghost p = staffed(*group);
    let mut staffing: Vec<(u32, u32)> = Vec::new();
    let ghost mut idx: Seq<int> = Seq::empty();
    let mut j: usize = 0;
    proof {
        lemma_select_none(schools@, p);
    }
    while j < schools.len()
        invariant
            j <= schools@.len(),
            p == staffed(*group),
            idx == select(schools@.take(j as int), p),
            staffing@.len() == idx.len(),
            forall|k: int| 0 <= k < idx.len() ==> 0 <= #[trigger] idx[k] < j,
            forall|k: int| 0 <= k < staffing@.len() ==> #[trigger] staffing@[k] == (
                schools@[idx[k]].student_count->0,
                schools@[idx[k]].teacher_count->0,
            ),
        decreases schools@.len() - j,
    {
        proof {
            lemma_select_step(schools@, p, j as int);
        }
        let s = &schools[j];
        if group_member(group, s) {
            match (s.student_count, s.teacher_count) {
                (Some(sc), Some(tc)) => {
                    if tc > 0 {
                        staffing.push((sc, tc));
                        proof {
                            idx = idx.push(j as int);
                        }
                    }
                },
                _ => {},
            }
        }
        j = j + 1;
    }
    proof {
        lemma_select_all(schools@, p);
    }
    GroupStats { count, abitur, pass_rate, demand, size, staffing }
}

/// The product of the teacher counts of `(students, teachers)` pairs.
pub open spec fn teacher_product(p: Seq<(u32, u32)>) -> int
    decreases p.len(),
{
    if p.len() == 0 {
        1
    } else {
        teacher_product(p.drop_last()) * (p.last().1 as int)
    }
}

/// The numerator of the sum of students per teacher over the pairs, over
/// the denominator `teacher_product(p)`: `a/b + s/t = (a*t + b*s) / (b*t)`.
pub open spec fn quotient_sum(p: Seq<(u32, u32)>) -> int
    decreases p.len(),
{
    if p.len() == 0 {
        0
    } else {
        quotient_sum(p.drop_last()) * (p.last().1 as int) + teacher_product(p.drop_last()) * (p.last().0 as int)
    }
}

/// The left group wins on staffing: its mean number of students per
/// teacher is positive and below that of the right group. With the means
/// `quotient_sum(l) / (teacher_product(l) * |l|)` and the same for `r`, the
/// comparison is made exactly, across the denominators; a group without
/// staffed schools has mean zero.
pub open spec fn staffing_below(l: Seq<(u32, u32)>, r: Seq<(u32, u32)>) -> bool {
    &&& l.len() > 0
    &&& r.len() > 0
    &&& quotient_sum(l) > 0
    &&& quotient_sum(l) * teacher_product(r) * r.len() < quotient_sum(r) * teacher_product(l) * l.len()
}

/// The numerator and denominator, as limbs, of the sum of students per
/// teacher.
fn quotient_sum_limbs(p: &Vec<(u32, u32)>) -> (r: (Vec<u64>, Vec<u64>))
    ensures
        crate::natural::value(r.0@) == quotient_sum(p@),
        crate::natural::value(r.1@) == teacher_product(p@),
{
    let mut num = crate::natural::from_word(0);
    let mut den = crate::natural::from_word(1);
    let mut j: usize = 0;
    assert(p@.take(0) =~= Seq::<(u32, u32)>::empty());
    while j < p.len()
        invariant
            j <= p@.len(),
            crate::natural::value(num@) == quotient_sum(p@.take(j as int)),
            crate::natural::value(den@) == teacher_product(p@.take(j as int)),
        decreases p@.len() - j,
    {
        let (s, t) = p[j];
        proof {
            assert(p@.take(j + 1).drop_last() =~= p@.take(j as int));
            assert(p@.take(j + 1).last() == p@[j as int]);
        }
        let a = crate::natural::mul_word(&num, t as u64);
        let b = crate::natural::mul_word(&den, s as u64);
        num = crate::natural::sum(a, b);
        den = crate::natural::mul_word(&den, t as u64);
        j = j + 1;
    }
    assert(p@.take(p@.len() as int) =~= p@);
    (num, den)
}

/// A number times the teacher counts of the pairs.
fn times_teachers(x: &Vec<u64>, p: &Vec<(u32, u32)>) -> (r: Vec<u64>)
    ensures
        crate::natural::value(r@) == crate::natural::value(x@) * teacher_product(p@),
{
    let mut r = crate::natural::mul_word(x, 1);
    let mut j: usize = 0;
    assert(p@.take(0) =~= Seq::<(u32, u32)>::empty());
    while j < p.len()
        invariant
            j <= p@.len(),
            crate::natural::value(r@) == crate::natural::value(x@) * teacher_product(p@.take(j as int)),
        decreases p@.len() - j,
    {
        let (_, t) = p[j];
        let ghost before = crate::natural::value(r@);
        proof {
            assert(p@.take(j + 1).drop_last() =~= p@.take(j as int));
            assert(p@.take(j + 1).last() == p@[j as int]);
            let v = crate::natural::value(x@) as int;
            let q = teacher_product(p@.take(j as int));
            assert(v * q * (t as int) == v * (q * (t as int))) by (nonlinear_arith);
        }
        r = crate::natural::mul_word(&r, t as u64);
        j = j + 1;
    }
    assert(p@.take(p@.len() as int) =~= p@);
    r
}

/// Whether the left group wins on staffing (see `staffing_below`).
pub fn compare_staffing(l: &Vec<(u32, u32)>, r: &Vec<(u32, u32)>) -> (w: bool)
    ensures
        w == staffing_below(l@, r@),
{
    if l.len() == 0 || r.len() == 0 {
        return false;
    }
    let (nl, _) = quotient_sum_limbs(l);
    let (nr, _) = quotient_sum_limbs(r);
    let x = crate::natural::mul_word(&times_teachers(&nl, r), r.len() as u64);
    let y = crate::natural::mul_word(&times_teachers(&nr, l), l.len() as u64);
    let positive = crate::natural::less(crate::natural::from_word(0), nl);
    positive && crate::natural::less(x, y)
}

/// Two groups side by side, with the verdicts the comparison shows: the
/// left group wins on Abitur when its (positive) average is lower, on pass
/// rate and demand when its average is higher, and on staffing when its
/// (positive) mean number of students per teacher is lower.
#[derive(Clone, Debug)]
pub struct GroupComparison {
    pub left: GroupStats,
    pub right: GroupStats,
    pub abitur_left_wins: bool,
    pub pass_left_wins: bool,
    pub demand_left_wins: bool,
    pub staffing_left_wins: bool,
}

/// A fraction stands for a positive value.
pub open spec fn ratio_positive(a: Ratio) -> bool {
    a.den > 0 && a.num > 0
}

/// Compares two groups.
pub fn compare_groups(schools: &Vec<School>, left: &GroupTest, right: &GroupTest) -> (r: GroupComparison)
    requires
        schools@.len() <= u32::MAX,
    ensures
        r.left.count == select(schools@, group_pred(*left)).len(),
        r.right.count == select(schools@, group_pred(*right)).len(),
        r.left.abitur == metric_average(schools@, group_pred(*left), Metric::Abitur),
        r.right.abitur == metric_average(schools@, group_pred(*right), Metric::Abitur),
        r.left.pass_rate == metric_average(schools@, group_pred(*left), Metric::PassRate),
        r.right.pass_rate == metric_average(schools@, group_pred(*right), Metric::PassRate),
        r.left.demand == metric_average(schools@, group_pred(*left), Metric::Demand),
        r.right.demand == metric_average(schools@, group_pred(*right), Metric::Demand),
        r.left.size == metric_average(schools@, group_pred(*left), Metric::Size),
        r.right.size == metric_average(schools@, group_pred(*right), Metric::Size),
        r.abitur_left_wins == (ratio_below(r.left.abitur, r.right.abitur) && ratio_positive(r.left.abitur)),
        r.pass_left_wins == ratio_below(r.right.pass_rate, r.left.pass_rate),
        r.demand_left_wins == ratio_below(r.right.demand, r.left.demand),
        r.staffing_left_wins == staffing_below(r.left.staffing@, r.right.staffing@),
{
    let l = group_stats(schools, left);
    let rt = group_stats(schools, right);
    let abitur_left_wins = ratio_lt(l.abitur, rt.abitur) && l.abitur.den > 0 && l.abitur.num > 0;
    let pass_left_wins = ratio_lt(rt.pass_rate, l.pass_rate);
    let demand_left_wins = ratio_lt(rt.demand, l.demand);
    let staffing_left_wins = compare_staffing(&l.staffing, &rt.staffing);
    GroupComparison { left: l, right: rt, abitur_left_wins, pass_left_wins, demand_left_wins, staffing_left_wins }
}

// ---------------------------------------------------------------------------
// Districts

/// Averages and student total of one district.
#[derive(Clone, Debug)]
pub struct DistrictStats {
    pub name: String,
    pub avg_abitur: Ratio,
    pub avg_demand: Ratio,
    pub avg_pass: Ratio,
    pub total_students: u64,
}

/// Per-district figures, city-wide Abitur average and student total.
#[derive(Clone, Debug)]
pub struct DistrictAggregates {
    pub districts: Vec<DistrictStats>,
    pub total_students: u64,
    pub city_avg: Ratio,
}

/// The figures of every district, in the order the districts first occur,
/// with the city-wide Abitur average and the total number of students.
pub fn district_aggregates(schools: &Vec<School>) -> (r: DistrictAggregates)
    requires
        schools@.len() <= u32::MAX,
    ensures
        r.districts@.len() == district_list(schools@).len(),
        forall|k: int| 0 <= k < r.districts@.len() ==> {
            let d = district_list(schools@)[k];
            &&& (#[trigger] r.districts@[k]).name@ == d
            &&& r.districts@[k].avg_abitur == metric_average(schools@, in_district(d), Metric::Abitur)
            &&& r.districts@[k].avg_demand == metric_average(schools@, in_district(d), Metric::Demand)
            &&& r.districts@[k].avg_pass == metric_average(schools@, in_district(d), Metric::PassRate)
            &&& r.districts@[k].total_students == metric_total(schools@, in_district(d), Metric::Size).0
        },
        r.city_avg == metric_average(schools@, group_pred(GroupTest::All), Metric::Abitur),
        r.total_students == metric_total(schools@, group_pred(GroupTest::All), Metric::Size).0,
{
    let counts = count_districts(schools);
    let mut rows: Vec<DistrictStats> = Vec::new();
    let mut k: usize = 0;
    while k < counts.len()
        invariant
            k <= counts@.len(),
            schools@.len() <= u32::MAX,
            counts@.len() == district_list(schools@).len(),
            forall|c: int| 0 <= c < counts@.len() ==> (#[trigger] counts@[c]).name@ == district_list(schools@)[c],
            rows@.len() == k,
            forall|c: int| 0 <= c < k ==> {
                let d = district_list(schools@)[c];
                &&& (#[trigger] rows@[c]).name@ == d
                &&& rows@[c].avg_abitur == metric_average(schools@, in_district(d), Metric::Abitur)
                &&& rows@[c].avg_demand == metric_average(schools@, in_district(d), Metric::Demand)
                &&& rows@[c].avg_pass == metric_average(schools@, in_district(d), Metric::PassRate)
                &&& rows@[c].total_students == metric_total(schools@, in_district(d), Metric::Size).0
            },
        decreases counts@.len() - k,
    {
        let g = GroupTest::District(counts[k].name.clone());
        assert(group_pred(g) == in_district(counts@[k as int].name@));
        proof {
            lemma_metric_total_bounds(schools@, group_pred(g), Metric::Size);
        }
        let a = average_over(schools, &g, Metric::Abitur);
        let d = average_over(schools, &g, Metric::Demand);
        let p = average_over(schools, &g, Metric::PassRate);
        let s = average_over(schools, &g, Metric::Size);
        rows.push(DistrictStats {
            name: counts[k].name.clone(),
            avg_abitur: a,
            avg_demand: d,
            avg_pass: p,
            total_students: s.num,
        });
        k = k + 1;
    }
    let city = average_over(schools, &GroupTest::All, Metric::Abitur);
    let all_size = average_over(schools, &GroupTest::All, Metric::Size);
    proof {
        lemma_metric_total_bounds(schools@, group_pred(GroupTest::All), Metric::Size);
    }
    DistrictAggregates { districts: rows, total_students: all_size.num, city_avg: city }
}

/// How a row of the district table is drawn: among the first three (with
/// a badge), among the last two (in red), and whether the divider that
/// sets off the last two stands above it.
#[derive(Clone, Copy, Debug, PartialEq, Eq, Structural)]
pub struct RowStyle {
    pub top: bool,
    pub bottom: bool,
    pub divider_before: bool,
}

/// The style of the row of rank `rank` (from 1) in a table of `last_rank`
/// rows.
pub fn district_row_style(rank: usize, last_rank: usize) -> (r: RowStyle)
    requires
        1 <= rank <= last_rank,
        last_rank >= 2,
    ensures
        r.top == (rank <= 3),
        r.bottom == (rank > last_rank - 2),
        r.divider_before == (rank == last_rank - 1),
{
    RowStyle { top: rank <= 3, bottom: rank > last_rank - 2, divider_before: rank == last_rank - 1 }
}

/// The sum of a metric's totals over the districts `ds`.
pub open spec fn district_sum(schools: Seq<School>, ds: Seq<Seq<char>>, m: Metric) -> int
    decreases ds.len(),
{
    if ds.len() == 0 {
        0
    } else {
        district_sum(schools, ds.drop_last(), m) + metric_total(schools, in_district(ds.last()), m).0
    }
}

/// What one school adds to a metric's total, if the test selects it.
spec fn contribution(s: School, p: spec_fn(School) -> bool, m: Metric) -> int {
    if p(s) && metric_of(m, s) is Some {
        metric_of(m, s)->0 as int
    } else {
        0
    }
}

/// No district occurs twice in the list of districts.
proof fn lemma_district_list_distinct(schools: Seq<School>)
    ensures
        forall|a: int, b: int|
            0 <= a < b < district_list(schools).len() ==> district_list(schools)[a] != district_list(schools)[b],
    decreases schools.len(),
{
    if schools.len() > 0 {
        let pre = district_list(schools.drop_last());
        let x = schools.last().district@;
        lemma_district_list_distinct(schools.drop_last());
        if !pre.contains(x) {
            let dl = pre.push(x);
            assert forall|a: int, b: int| 0 <= a < b < dl.len() implies dl[a] != dl[b] by {
                if b == pre.len() {
                    assert(dl[a] == pre[a]);
                    if pre[a] == x {
                        assert(pre.contains(x));
                    }
                } else {
                    assert(dl[a] == pre[a] && dl[b] == pre[b]);
                }
            }
        }
    }
}

/// A district that does not occur has a total of zero.
proof fn lemma_total_absent(schools: Seq<School>, d: Seq<char>, m: Metric)
    requires
        !district_list(schools).contains(d),
    ensures
        metric_total(schools, in_district(d), m).0 == 0,
    decreases schools.len(),
{
    if schools.len() > 0 {
        let pre = district_list(schools.drop_last());
        assert(!pre.contains(d)) by {
            if pre.contains(d) {
                let q = choose|q: int| 0 <= q < pre.len() && pre[q] == d;
                if !pre.contains(schools.last().district@) {
                    assert(pre.push(schools.last().district@)[q] == d);
                }
            }
        }
        lemma_total_absent(schools.drop_last(), d, m);
        if schools.last().district@ == d {
            if !pre.contains(d) {
                assert(district_list(schools).last() == d);
            }
        }
    }
}

/// One more school adds its value to the sum over distinct districts once,
/// if its district is among them.
proof fn lemma_district_sum_step(pre: Seq<School>, s: School, ds: Seq<Seq<char>>, m: Metric)
    requires
        forall|a: int, b: int| 0 <= a < b < ds.len() ==> ds[a] != ds[b],
    ensures
        district_sum(pre.push(s), ds, m) == district_sum(pre, ds, m) + if ds.contains(s.district@) {
            contribution(s, |t: School| true, m)
        } else {
            0
        },
    decreases ds.len(),
{
    if ds.len() > 0 {
        let init = ds.drop_last();
        let x = ds.last();
        assert forall|a: int, b: int| 0 <= a < b < init.len() implies init[a] != init[b] by {
            assert(init[a] == ds[a] && init[b] == ds[b]);
        }
        lemma_district_sum_step(pre, s, init, m);
        assert(pre.push(s).drop_last() =~= pre);
        assert(pre.push(s).last() == s);
        assert(metric_total(pre.push(s), in_district(x), m).0 == metric_total(pre, in_district(x), m).0
            + contribution(s, in_district(x), m));
        if ds.contains(s.district@) {
            let q = choose|q: int| 0 <= q < ds.len() && ds[q] == s.district@;
            if q == ds.len() - 1 {
                assert(!init.contains(s.district@)) by {
                    if init.contains(s.district@) {
                        let r = choose|r: int| 0 <= r < init.len() && init[r] == s.district@;
                        assert(ds[r] == ds[q]);
                    }
                }
            } else {
                assert(init[q] == s.district@);
                assert(x != s.district@);
            }
        } else {
            assert(x != s.district@);
            assert(!init.contains(s.district@)) by {
                if init.contains(s.district@) {
                    let r = choose|r: int| 0 <= r < init.len() && init[r] == s.district@;
                    assert(ds[r] == s.district@);
                }
            }
        }
    }
}

/// The district totals of a metric add up to its total over all schools;
/// with the number of students, the district rows of `district_aggregates`
/// add up to its `total_students`.
pub proof fn lemma_district_totals_add_up(schools: Seq<School>, m: Metric)
    ensures
        district_sum(schools, district_list(schools), m) == metric_total(schools, group_pred(GroupTest::All), m).0,
    decreases schools.len(),
{
    if schools.len() > 0 {
        let pre = schools.drop_last();
        let s = schools.last();
        assert(schools =~= pre.push(s));
        lemma_district_totals_add_up(pre, m);
        lemma_district_list_distinct(pre);
        lemma_district_sum_step(pre, s, district_list(pre), m);
        let dp = district_list(pre);
        if !dp.contains(s.district@) {
            let dn = dp.push(s.district@);
            assert(dn.drop_last() =~= dp);
            lemma_total_absent(pre, s.district@, m);
            assert(metric_total(schools, in_district(s.district@), m).0 == metric_total(
                pre,
                in_district(s.district@),
                m,
            ).0 + contribution(s, in_district(s.district@), m));
        }
    }
}

// ---------------------------------------------------------------------------
// Infographic cards

/// Number of infographic cards.
pub const INFOGRAPHIC_COUNT: usize = 6;

/// Title, call to action (German, English) and link of a card.
pub open spec fn card_meta(idx: int) -> (Seq<char>, Seq<char>, Seq<char>, Seq<char>, Seq<char>) {
    if idx == 0 {
        ("Akademische Exzellenz"@, "Academic Excellence"@, "Alle Schulen anzeigen"@, "View all schools"@, "/"@)
    } else if idx == 1 {
        ("Angebot vs. Nachfrage"@, "Supply vs Demand"@, "Nach Schülerzahl sortieren"@, "Sort by student count"@, "/?sort=students"@)
    } else if idx == 2 {
        ("Hype = Qualität?"@, "Does Hype = Quality?"@, "Alle Schulen anzeigen"@, "View all schools"@, "/"@)
    } else if idx == 3 {
        ("Privat vs. Öffentlich"@, "Private vs Public"@, "Alle Schulen anzeigen"@, "View all schools"@, "/"@)
    } else if idx == 4 {
        ("Vorteil ab Klasse 5"@, "The 4th Grade Advantage"@, "Grundständige Schulen"@, "View early-entry schools"@, "/?grundstaendig=ja"@)
    } else {
        ("Bezirks-Ranking"@, "District Power Rankings"@, "Karte anzeigen"@, "View on map"@, "/?view=map"@)
    }
}

/// Title, call to action and link of a card, in a language.
pub fn card_texts(idx: usize, lang: crate::i18n::Language) -> (r: (&'static str, &'static str, &'static str))
    requires
        idx < INFOGRAPHIC_COUNT,
    ensures
        r.0@ == crate::i18n::pick(lang, card_meta(idx as int).0, card_meta(idx as int).1),
        r.1@ == crate::i18n::pick(lang, card_meta(idx as int).2, card_meta(idx as int).3),
        r.2@ == card_meta(idx as int).4,
{
    let (tde, ten, ade, aen, link) = if idx == 0 {
        ("Akademische Exzellenz", "Academic Excellence", "Alle Schulen anzeigen", "View all schools", "/")
    } else if idx == 1 {
        ("Angebot vs. Nachfrage", "Supply vs Demand", "Nach Schülerzahl sortieren", "Sort by student count", "/?sort=students")
    } else if idx == 2 {
        ("Hype = Qualität?", "Does Hype = Quality?", "Alle Schulen anzeigen", "View all schools", "/")
    } else if idx == 3 {
        ("Privat vs. Öffentlich", "Private vs Public", "Alle Schulen anzeigen", "View all schools", "/")
    } else if idx == 4 {
        ("Vorteil ab Klasse 5", "The 4th Grade Advantage", "Grundständige Schulen", "View early-entry schools", "/?grundstaendig=ja")
    } else {
        ("Bezirks-Ranking", "District Power Rankings", "Karte anzeigen", "View on map", "/?view=map")
    };
    match lang {
        crate::i18n::Language::De => (tde, ade, link),
        crate::i18n::Language::En => (ten, aen, link),
    }
}

/// What a key press in the open card viewer does: `Escape` closes it
/// (`Some(None)`), the arrow keys move to the previous or next card where
/// there is one (`Some(Some(i))`); anything else changes nothing (`None`).
pub open spec fn modal_key_effect(idx: int, key: Seq<char>, total: int) -> Option<Option<int>> {
    if key == "Escape"@ {
        Some(None)
    } else if key == "ArrowLeft"@ {
        if idx > 0 { Some(Some(idx - 1)) } else { None }
    } else if key == "ArrowRight"@ {
        if idx < total - 1 { Some(Some(idx + 1)) } else { None }
    } else {
        None
    }
}

/// The effect of a key press in the card viewer.
pub fn modal_key(idx: usize, key: &str, total: usize) -> (r: Option<Option<usize>>)
    requires
        idx < total,
    ensures
        match modal_key_effect(idx as int, key@, total as int) {
            Some(Some(i)) => r == Some(Some(i as usize)),
            Some(None) => r == Some(None::<usize>),
            None => r is None,
        },
{
    if crate::text::str_eq(key, "Escape") {
        Some(None)
    } else if crate::text::str_eq(key, "ArrowLeft") {
        if idx > 0 { Some(Some(idx - 1)) } else { None }
    } else if crate::text::str_eq(key, "ArrowRight") {
        if idx < total - 1 { Some(Some(idx + 1)) } else { None }
    } else {
        None
    }
}

/// Something done in the open card viewer.
#[derive(Clone, Debug)]
pub enum ViewerEvent {
    /// A key press.
    Key(String),
    /// The button for the previous card.
    Previous,
    /// The button for the next card.
    Next,
    /// The dot of card `k`.
    Dot(usize),
    /// The close button, or a click on the overlay around the card.
    Close,
    /// The call to action under the card.
    Action,
}

/// What an event in the viewer showing card `idx` (of `total`) does: the
/// new state of the viewer (`Some(None)` closed, `Some(Some(i))` card `i`,
/// `None` no change), and whether the card's link is followed.
pub open spec fn viewer_effect(idx: int, e: ViewerEvent, total: int) -> (Option<Option<int>>, bool) {
    match e {
        ViewerEvent::Key(k) => (modal_key_effect(idx, k@, total), false),
        ViewerEvent::Previous => (if idx > 0 { Some(Some(idx - 1)) } else { None }, false),
        ViewerEvent::Next => (if idx < total - 1 { Some(Some(idx + 1)) } else { None }, false),
        ViewerEvent::Dot(k) => (if k < total { Some(Some(k as int)) } else { None }, false),
        ViewerEvent::Close => (Some(None), false),
        ViewerEvent::Action => (Some(None), true),
    }
}

/// The effect of an event in the viewer showing card `idx`.
pub fn viewer_step(idx: usize, event: &ViewerEvent) -> (r: (Option<Option<usize>>, bool))
    requires
        idx < INFOGRAPHIC_COUNT,
    ensures
        r.1 == viewer_effect(idx as int, *event, INFOGRAPHIC_COUNT as int).1,
        match viewer_effect(idx as int, *event, INFOGRAPHIC_COUNT as int).0 {
            Some(Some(i)) => r.0 == Some(Some(i as usize)),
            Some(None) => r.0 == Some(None::<usize>),
            None => r.0 is None,
        },
{
    match event {
        ViewerEvent::Key(k) => (modal_key(idx, k.as_str(), INFOGRAPHIC_COUNT), false),
        ViewerEvent::Previous => (if idx > 0 { Some(Some(idx - 1)) } else { None }, false),
        ViewerEvent::Next => (if idx < INFOGRAPHIC_COUNT - 1 { Some(Some(idx + 1)) } else { None }, false),
        ViewerEvent::Dot(k) => (if *k < INFOGRAPHIC_COUNT { Some(Some(*k)) } else { None }, false),
        ViewerEvent::Close => (Some(None), false),
        ViewerEvent::Action => (Some(None), true),
    }
}

/// The card viewer never moves to a card that does not exist: whatever is
/// done in an open viewer, it closes, stays, or opens a card in range (the
/// keys and the previous and next buttons only a neighbouring one), and
/// only the call to action follows the card's link.
pub proof fn lemma_viewer_in_range(idx: int, e: ViewerEvent, total: int)
    requires
        0 <= idx < total,
    ensures
        viewer_effect(idx, e, total).0 matches Some(Some(i)) ==> 0 <= i < total,
        (e is Key || e is Previous || e is Next) ==> (viewer_effect(idx, e, total).0 matches Some(Some(i)) ==> (i
            == idx - 1 || i == idx + 1)),
        viewer_effect(idx, e, total).1 <==> e is Action,
{
}

/// In the card viewer the arrow keys do what the previous and next buttons
/// do: back one card unless at the first, on one card unless at the last;
/// going back and then on returns to the card shown; Escape and the close
/// button close the viewer; a dot shows its card.
pub proof fn lemma_viewer_moves(idx: int, total: int, k: usize)
    requires
        0 <= idx < total,
    ensures
        viewer_effect(idx, ViewerEvent::Previous, total).0 == (if idx > 0 { Some(Some(idx - 1)) } else { None }),
        viewer_effect(idx, ViewerEvent::Next, total).0 == (if idx + 1 < total { Some(Some(idx + 1)) } else { None }),
        idx > 0 ==> viewer_effect(idx - 1, ViewerEvent::Next, total).0 == Some(Some(idx)),
        idx + 1 < total ==> viewer_effect(idx + 1, ViewerEvent::Previous, total).0 == Some(Some(idx)),
        modal_key_effect(idx, "ArrowLeft"@, total) == viewer_effect(idx, ViewerEvent::Previous, total).0,
        modal_key_effect(idx, "ArrowRight"@, total) == viewer_effect(idx, ViewerEvent::Next, total).0,
        modal_key_effect(idx, "Escape"@, total) == Some(None::<int>),
        viewer_effect(idx, ViewerEvent::Close, total).0 == Some(None::<int>),
        k < total ==> viewer_effect(idx, ViewerEvent::Dot(k), total).0 == Some(Some(k as int)),
{
    reveal_strlit("ArrowLeft");
    reveal_strlit("ArrowRight");
    reveal_strlit("Escape");
    assert("ArrowLeft"@[0] != "Escape"@[0]);
    assert("ArrowRight"@[0] != "Escape"@[0]);
    assert("ArrowRight"@[5] != "ArrowLeft"@[5]);
}

} // verus!
