//! The school listing: filters, ordering, and the query string that holds
//! the filter state.
use vstd::prelude::*;

use crate::models::{same_school, School, SortField, TravelTimes};
use crate::routing::{table_get, TravelTable};
use crate::text::{chars_eq, chars_lt, chars_of, concat, join, join_with, lemma_seq_lt_total, lemma_seq_lt_trans, owned, seq_lt, split_char, split_on, str_eq, views};

verus! {

broadcast use vstd::string::group_string_axioms;

// ---------------------------------------------------------------------------
// Filters

/// Some string of `list` has the view `s` (`list.contains(s)`).
pub open spec fn has_view(list: Seq<String>, s: Seq<char>) -> bool {
    exists|i: int| 0 <= i < list.len() && list[i]@ == s
}

/// A tri-state filter (`None`: any) admits the flag.
pub open spec fn tristate_admits(wanted: Option<bool>, flag: Option<bool>) -> bool {
    match wanted {
        Some(true) => flag == Some(true),
        Some(false) => flag != Some(true),
        None => true,
    }
}

/// The school passes every filter: an empty list of districts, profiles or
/// languages admits every school; otherwise the school must be in one of
/// the districts, have one of the profiles, teach one of the languages.
pub open spec fn passes_filters(
    s: School,
    districts: Seq<String>,
    profiles: Seq<String>,
    grundstaendig: Option<bool>,
    languages: Seq<String>,
    ganztag: Option<bool>,
) -> bool {
    &&& (districts.len() == 0 || has_view(districts, s.district@))
    &&& (profiles.len() == 0 || exists|j: int| 0 <= j < s.profile@.len() && has_view(profiles, s.profile@[j]@))
    &&& tristate_admits(grundstaendig, s.accepts_after_4th_grade)
    &&& (languages.len() == 0 || exists|j: int| 0 <= j < s.languages@.len() && has_view(languages, s.languages@[j].name@))
    &&& tristate_admits(ganztag, s.ganztag)
}

/// With no filter set, every school passes; so after "clear all filters"
/// the listing shows every school.
pub proof fn lemma_no_filters_admit_all(s: School)
    ensures
        passes_filters(s, Seq::empty(), Seq::empty(), None, Seq::empty(), None),
{
}

/// Whether `list` holds a string equal to `s`.
pub fn contains_str(list: &Vec<String>, s: &String) -> (r: bool)
    ensures
        r == has_view(list@, s@),
{
    let mut i: usize = 0;
    while i < list.len()
        invariant
            i <= list@.len(),
            forall|k: int| 0 <= k < i ==> list@[k]@ != s@,
        decreases list@.len() - i,
    {
        if list[i] == *s {
            return true;
        }
        i = i + 1;
    }
    false
}

fn any_profile(s: &School, profiles: &Vec<String>) -> (r: bool)
    ensures
        r == exists|j: int| 0 <= j < s.profile@.len() && has_view(profiles@, s.profile@[j]@),
{
    let mut j: usize = 0;
    while j < s.profile.len()
        invariant
            j <= s.profile@.len(),
            forall|k: int| 0 <= k < j ==> !has_view(profiles@, s.profile@[k]@),
        decreases s.profile@.len() - j,
    {
        if contains_str(profiles, &s.profile[j]) {
            return true;
        }
        j = j + 1;
    }
    false
}

fn any_language(s: &School, languages: &Vec<String>) -> (r: bool)
    ensures
        r == exists|j: int| 0 <= j < s.languages@.len() && has_view(languages@, s.languages@[j].name@),
{
    let mut j: usize = 0;
    while j < s.languages.len()
        invariant
            j <= s.languages@.len(),
            forall|k: int| 0 <= k < j ==> !has_view(languages@, s.languages@[k].name@),
        decreases s.languages@.len() - j,
    {
        if contains_str(languages, &s.languages[j].name) {
            return true;
        }
        j = j + 1;
    }
    false
}

fn admits(wanted: Option<bool>, flag: Option<bool>) -> (r: bool)
    ensures
        r == tristate_admits(wanted, flag),
{
    match wanted {
        Some(true) => flag == Some(true),
        Some(false) => flag != Some(true),
        None => true,
    }
}

/// Whether a school passes the filters.
pub fn school_passes(
    s: &School,
    districts: &Vec<String>,
    profiles: &Vec<String>,
    grundstaendig: Option<bool>,
    languages: &Vec<String>,
    ganztag: Option<bool>,
) -> (r: bool)
    ensures
        r == passes_filters(*s, districts@, profiles@, grundstaendig, languages@, ganztag),
{
    if districts.len() != 0 && !contains_str(districts, &s.district) {
        return false;
    }
    if profiles.len() != 0 && !any_profile(s, profiles) {
        return false;
    }
    if !admits(grundstaendig, s.accepts_after_4th_grade) {
        return false;
    }
    if languages.len() != 0 && !any_language(s, languages) {
        return false;
    }
    admits(ganztag, s.ganztag)
}

// ---------------------------------------------------------------------------
// Ordering

/// The key a school is ordered by: a number, then two texts, compared in
/// that order.
pub struct SortKey {
    pub rank: i64,
    pub first: Vec<char>,
    pub second: Vec<char>,
}

/// Rank of schools without a travel time: after every time a `u32` holds.
pub open spec fn no_time_rank() -> int {
    0x1_0000_0000
}

/// The travel time of the mode a sort field names.
pub open spec fn mode_time(field: SortField, t: TravelTimes) -> Option<u32> {
    match field {
        SortField::TravelTimeWalk => t.walk_minutes,
        SortField::TravelTimeBike => t.bike_minutes,
        _ => t.car_minutes,
    }
}

/// The sort key of a school:
/// - by name: the name;
/// - by district: the district, then the name;
/// - by student count: the count (none counts as 0), largest first;
/// - by a travel time, when times are known: schools with a time for that
///   mode first, by ascending time; then schools without, by name;
/// - by a travel time, when no times are known: the name.
pub open spec fn sort_key(
    field: SortField,
    tt: Option<Seq<(String, TravelTimes)>>,
    s: School,
) -> (int, Seq<char>, Seq<char>) {
    match field {
        SortField::Name => (0, s.name@, Seq::empty()),
        SortField::District => (0, s.district@, s.name@),
        SortField::StudentCount => (
            -(match s.student_count { Some(c) => c as int, None => 0 }),
            Seq::empty(),
            Seq::empty(),
        ),
        _ => match tt {
            None => (0, s.name@, Seq::empty()),
            Some(entries) => {
                let t = match table_get(entries, s.school_id@) {
                    Some(times) => mode_time(field, times),
                    None => None,
                };
                match t {
                    Some(m) => (m as int, Seq::empty(), Seq::empty()),
                    None => (no_time_rank(), s.name@, Seq::empty()),
                }
            },
        },
    }
}

/// Strict order of sort keys: by number, then first text, then second text.
pub open spec fn key_lt(a: (int, Seq<char>, Seq<char>), b: (int, Seq<char>, Seq<char>)) -> bool {
    a.0 < b.0 || (a.0 == b.0 && (seq_lt(a.1, b.1) || (a.1 == b.1 && seq_lt(a.2, b.2))))
}

pub proof fn lemma_key_lt_order(
    a: (int, Seq<char>, Seq<char>),
    b: (int, Seq<char>, Seq<char>),
    c: (int, Seq<char>, Seq<char>),
)
    ensures
        !key_lt(a, a),
        key_lt(a, b) ==> !key_lt(b, a),
        a != b ==> key_lt(a, b) || key_lt(b, a),
        key_lt(a, b) && key_lt(b, c) ==> key_lt(a, c),
{
    lemma_seq_lt_total(a.1, b.1);
    lemma_seq_lt_total(a.2, b.2);
    if seq_lt(a.1, b.1) && seq_lt(b.1, c.1) {
        lemma_seq_lt_trans(a.1, b.1, c.1);
    }
    if seq_lt(a.2, b.2) && seq_lt(b.2, c.2) {
        lemma_seq_lt_trans(a.2, b.2, c.2);
    }
}

impl SortKey {
    pub open spec fn view(&self) -> (int, Seq<char>, Seq<char>) {
        (self.rank as int, self.first@, self.second@)
    }
}

fn key_less(a: &SortKey, b: &SortKey) -> (r: bool)
    ensures
        r == key_lt(a.view(), b.view()),
{
    if a.rank != b.rank {
        return a.rank < b.rank;
    }
    if chars_lt(a.first.as_slice(), b.first.as_slice()) {
        return true;
    }
    if !chars_eq(a.first.as_slice(), b.first.as_slice()) {
        return false;
    }
    chars_lt(a.second.as_slice(), b.second.as_slice())
}

/// The sort key of a school, computed.
pub fn school_sort_key(field: SortField, tt: &Option<TravelTable>, s: &School) -> (r: SortKey)
    ensures
        r.view() == sort_key(field, table_view_spec(*tt), *s),
{
    match field {
        SortField::Name => SortKey { rank: 0, first: chars_of(s.name.as_str()), second: Vec::new() },
        SortField::District => SortKey {
            rank: 0,
            first: chars_of(s.district.as_str()),
            second: chars_of(s.name.as_str()),
        },
        SortField::StudentCount => {
            let c: i64 = match s.student_count {
                Some(c) => c as i64,
                None => 0,
            };
            SortKey { rank: -c, first: Vec::new(), second: Vec::new() }
        },
        _ => match tt {
            None => SortKey { rank: 0, first: chars_of(s.name.as_str()), second: Vec::new() },
            Some(table) => {
                let t = match table.get(s.school_id.as_str()) {
                    Some(times) => match field {
                        SortField::TravelTimeWalk => times.walk_minutes,
                        SortField::TravelTimeBike => times.bike_minutes,
                        _ => times.car_minutes,
                    },
                    None => None,
                };
                match t {
                    Some(m) => SortKey { rank: m as i64, first: Vec::new(), second: Vec::new() },
                    None => SortKey {
                        rank: 0x1_0000_0000,
                        first: chars_of(s.name.as_str()),
                        second: Vec::new(),
                    },
                }
            },
        },
    }
}

/// The entries of the travel table, if there is one.
pub open spec fn table_view_spec(tt: Option<TravelTable>) -> Option<Seq<(String, TravelTimes)>> {
    match tt {
        Some(t) => Some(t.entries@),
        None => None,
    }
}

/// Index `a` is ordered before index `b`: a smaller key, or the same key and
/// an earlier position (the order is stable).
pub open spec fn ordered_before(keys: Seq<(int, Seq<char>, Seq<char>)>, a: int, b: int) -> bool {
    key_lt(keys[a], keys[b]) || (keys[a] == keys[b] && a < b)
}

proof fn lemma_ordered_before_trans(keys: Seq<(int, Seq<char>, Seq<char>)>, a: int, b: int, c: int)
    requires
        ordered_before(keys, a, b),
        ordered_before(keys, b, c),
    ensures
        ordered_before(keys, a, c),
{
    lemma_key_lt_order(keys[a], keys[b], keys[c]);
}

/// The listing's school order: `order` lists distinct indices of `schools`,
/// exactly those of the schools that pass the filters, ordered by the sort
/// key and, for equal keys, by position.
pub open spec fn is_listing_order(
    schools: Seq<School>,
    districts: Seq<String>,
    profiles: Seq<String>,
    grundstaendig: Option<bool>,
    languages: Seq<String>,
    ganztag: Option<bool>,
    sort: SortField,
    tt: Option<Seq<(String, TravelTimes)>>,
    order: Seq<int>,
) -> bool {
    let keys = Seq::new(schools.len(), |i: int| sort_key(sort, tt, schools[i]));
    &&& forall|k: int| 0 <= k < order.len() ==> 0 <= #[trigger] order[k] < schools.len()
    &&& forall|a: int, b: int| 0 <= a < b < order.len() ==> order[a] != order[b]
    &&& forall|k: int| 0 <= k < order.len() ==> passes_filters(
        #[trigger] schools[order[k]],
        districts,
        profiles,
        grundstaendig,
        languages,
        ganztag,
    )
    &&& forall|j: int| 0 <= j < schools.len() && passes_filters(
        #[trigger] schools[j],
        districts,
        profiles,
        grundstaendig,
        languages,
        ganztag,
    ) ==> order.contains(j)
    &&& forall|a: int, b: int| 0 <= a < b < order.len() ==> ordered_before(keys, order[a], order[b])
}

/// The indices of the schools that pass the filters.
pub open spec fn passing(
    schools: Seq<School>,
    districts: Seq<String>,
    profiles: Seq<String>,
    grundstaendig: Option<bool>,
    languages: Seq<String>,
    ganztag: Option<bool>,
) -> Set<int> {
    Set::new(
        |j: int| 0 <= j < schools.len() && passes_filters(schools[j], districts, profiles, grundstaendig, languages, ganztag),
    )
}

proof fn lemma_listing_set(
    schools: Seq<School>,
    districts: Seq<String>,
    profiles: Seq<String>,
    grundstaendig: Option<bool>,
    languages: Seq<String>,
    ganztag: Option<bool>,
    sort: SortField,
    tt: Option<Seq<(String, TravelTimes)>>,
    order: Seq<int>,
)
    requires
        is_listing_order(schools, districts, profiles, grundstaendig, languages, ganztag, sort, tt, order),
    ensures
        order.to_set() == passing(schools, districts, profiles, grundstaendig, languages, ganztag),
        order.len() == order.to_set().len(),
{
    let p = passing(schools, districts, profiles, grundstaendig, languages, ganztag);
    assert forall|j: int| order.to_set().contains(j) <==> p.contains(j) by {
        if order.to_set().contains(j) {
            let k = choose|k: int| 0 <= k < order.len() && order[k] == j;
            assert(0 <= order[k] < schools.len());
        }
        if p.contains(j) {
            assert(order.contains(j));
        }
    }
    assert(order.to_set() =~= p);
    assert(order.no_duplicates()) by {
        assert forall|a: int, b: int| 0 <= a < order.len() && 0 <= b < order.len() && a != b implies order[a]
            != order[b] by {
            if a > b {
                assert(order[b] != order[a]);
            }
        }
    }
    order.unique_seq_to_set();
}

/// The schools listed do not depend on the sort order: two listing orders
/// of the same schools under the same filters, by whatever fields and
/// travel times, list the same schools, as many of them; with no filter
/// set, they list every school once.
pub proof fn lemma_listing_same_schools(
    schools: Seq<School>,
    districts: Seq<String>,
    profiles: Seq<String>,
    grundstaendig: Option<bool>,
    languages: Seq<String>,
    ganztag: Option<bool>,
    sort1: SortField,
    tt1: Option<Seq<(String, TravelTimes)>>,
    order1: Seq<int>,
    sort2: SortField,
    tt2: Option<Seq<(String, TravelTimes)>>,
    order2: Seq<int>,
)
    requires
        is_listing_order(schools, districts, profiles, grundstaendig, languages, ganztag, sort1, tt1, order1),
        is_listing_order(schools, districts, profiles, grundstaendig, languages, ganztag, sort2, tt2, order2),
    ensures
        order1.to_set() == order2.to_set(),
        order1.len() == order2.len(),
        (districts.len() == 0 && profiles.len() == 0 && grundstaendig is None && languages.len() == 0 && ganztag is None)
            ==> order1.to_set() == vstd::set_lib::set_int_range(0, schools.len() as int) && order1.len() == schools.len(),
{
    lemma_listing_set(schools, districts, profiles, grundstaendig, languages, ganztag, sort1, tt1, order1);
    lemma_listing_set(schools, districts, profiles, grundstaendig, languages, ganztag, sort2, tt2, order2);
    if districts.len() == 0 && profiles.len() == 0 && grundstaendig is None && languages.len() == 0 && ganztag is None {
        assert(passing(schools, districts, profiles, grundstaendig, languages, ganztag) =~= vstd::set_lib::set_int_range(
            0,
            schools.len() as int,
        ));
        vstd::set_lib::lemma_int_range(0, schools.len() as int);
    }
}

/// A string of `a + b` has the view `x` exactly when one of `a` or of `b`
/// has.
proof fn lemma_has_view_concat(a: Seq<String>, b: Seq<String>, x: Seq<char>)
    ensures
        has_view(a + b, x) == (has_view(a, x) || has_view(b, x)),
{
    if has_view(a + b, x) {
        let i = choose|i: int| 0 <= i < (a + b).len() && (a + b)[i]@ == x;
        if i < a.len() {
            assert(a[i] == (a + b)[i]);
        } else {
            assert(b[i - a.len()] == (a + b)[i]);
        }
    }
    if has_view(a, x) {
        let i = choose|i: int| 0 <= i < a.len() && a[i]@ == x;
        assert((a + b)[i] == a[i]);
    }
    if has_view(b, x) {
        let i = choose|i: int| 0 <= i < b.len() && b[i]@ == x;
        assert((a + b)[a.len() + i] == b[i]);
    }
}

/// With a selection of languages, a school passes the language filter
/// exactly when it teaches one of the selected languages (a school needs
/// only one of them, not all).
pub proof fn lemma_language_filter(s: School, languages: Seq<String>)
    requires
        languages.len() > 0,
    ensures
        passes_filters(s, Seq::empty(), Seq::empty(), None, languages, None) <==> exists|j: int, i: int|
            #![trigger s.languages@[j], languages[i]]
            0 <= j < s.languages@.len() && 0 <= i < languages.len() && s.languages@[j].name@ == languages[i]@,
{
    if passes_filters(s, Seq::empty(), Seq::empty(), None, languages, None) {
        let j = choose|j: int| 0 <= j < s.languages@.len() && has_view(languages, s.languages@[j].name@);
        let i = choose|i: int| 0 <= i < languages.len() && languages[i]@ == s.languages@[j].name@;
        assert(s.languages@[j].name@ == languages[i]@);
    }
    if exists|j: int, i: int|
        #![trigger s.languages@[j], languages[i]]
        0 <= j < s.languages@.len() && 0 <= i < languages.len() && s.languages@[j].name@ == languages[i]@ {
        let (j, i) = choose|j: int, i: int|
            #![trigger s.languages@[j], languages[i]]
            0 <= j < s.languages@.len() && 0 <= i < languages.len() && s.languages@[j].name@ == languages[i]@;
        assert(has_view(languages, s.languages@[j].name@));
    }
}

/// Selecting the languages of two selections passes a school exactly when
/// one of the two selections alone passes it (the other filters the same).
pub proof fn lemma_language_union(
    s: School,
    districts: Seq<String>,
    profiles: Seq<String>,
    grundstaendig: Option<bool>,
    first: Seq<String>,
    second: Seq<String>,
    ganztag: Option<bool>,
)
    requires
        first.len() > 0,
        second.len() > 0,
    ensures
        passes_filters(s, districts, profiles, grundstaendig, first + second, ganztag) == (passes_filters(
            s,
            districts,
            profiles,
            grundstaendig,
            first,
            ganztag,
        ) || passes_filters(s, districts, profiles, grundstaendig, second, ganztag)),
{
    let both = first + second;
    assert forall|j: int| 0 <= j < s.languages@.len() implies has_view(both, #[trigger] s.languages@[j].name@) == (
    has_view(first, s.languages@[j].name@) || has_view(second, s.languages@[j].name@)) by {
        lemma_has_view_concat(first, second, s.languages@[j].name@);
    }
}

/// Selecting the districts of two selections passes a school exactly when
/// one of the two selections alone passes it (the other filters the same).
pub proof fn lemma_district_union(
    s: School,
    first: Seq<String>,
    second: Seq<String>,
    profiles: Seq<String>,
    grundstaendig: Option<bool>,
    languages: Seq<String>,
    ganztag: Option<bool>,
)
    requires
        first.len() > 0,
        second.len() > 0,
    ensures
        passes_filters(s, first + second, profiles, grundstaendig, languages, ganztag) == (passes_filters(
            s,
            first,
            profiles,
            grundstaendig,
            languages,
            ganztag,
        ) || passes_filters(s, second, profiles, grundstaendig, languages, ganztag)),
{
    lemma_has_view_concat(first, second, s.district@);
}

/// Selecting the profiles of two selections passes a school exactly when
/// one of the two selections alone passes it (the other filters the same).
pub proof fn lemma_profile_union(
    s: School,
    districts: Seq<String>,
    first: Seq<String>,
    second: Seq<String>,
    grundstaendig: Option<bool>,
    languages: Seq<String>,
    ganztag: Option<bool>,
)
    requires
        first.len() > 0,
        second.len() > 0,
    ensures
        passes_filters(s, districts, first + second, grundstaendig, languages, ganztag) == (passes_filters(
            s,
            districts,
            first,
            grundstaendig,
            languages,
            ganztag,
        ) || passes_filters(s, districts, second, grundstaendig, languages, ganztag)),
{
    let both = first + second;
    assert forall|j: int| 0 <= j < s.profile@.len() implies has_view(both, #[trigger] s.profile@[j]@) == (has_view(
        first,
        s.profile@[j]@,
    ) || has_view(second, s.profile@[j]@)) by {
        lemma_has_view_concat(first, second, s.profile@[j]@);
    }
}

/// The listing for the languages of two selections holds exactly the
/// schools listed for one selection or the other.
pub proof fn lemma_listing_language_union(
    schools: Seq<School>,
    districts: Seq<String>,
    profiles: Seq<String>,
    grundstaendig: Option<bool>,
    first: Seq<String>,
    second: Seq<String>,
    ganztag: Option<bool>,
    sort: SortField,
    tt: Option<Seq<(String, TravelTimes)>>,
    order: Seq<int>,
    order1: Seq<int>,
    order2: Seq<int>,
)
    requires
        first.len() > 0,
        second.len() > 0,
        is_listing_order(schools, districts, profiles, grundstaendig, first + second, ganztag, sort, tt, order),
        is_listing_order(schools, districts, profiles, grundstaendig, first, ganztag, sort, tt, order1),
        is_listing_order(schools, districts, profiles, grundstaendig, second, ganztag, sort, tt, order2),
    ensures
        order.to_set() == order1.to_set().union(order2.to_set()),
{
    lemma_listing_set(schools, districts, profiles, grundstaendig, first + second, ganztag, sort, tt, order);
    lemma_listing_set(schools, districts, profiles, grundstaendig, first, ganztag, sort, tt, order1);
    lemma_listing_set(schools, districts, profiles, grundstaendig, second, ganztag, sort, tt, order2);
    assert forall|j: int| 0 <= j < schools.len() implies passes_filters(
        #[trigger] schools[j],
        districts,
        profiles,
        grundstaendig,
        first + second,
        ganztag,
    ) == (passes_filters(schools[j], districts, profiles, grundstaendig, first, ganztag) || passes_filters(
        schools[j],
        districts,
        profiles,
        grundstaendig,
        second,
        ganztag,
    )) by {
        lemma_language_union(schools[j], districts, profiles, grundstaendig, first, second, ganztag);
    }
    assert(order.to_set() =~= order1.to_set().union(order2.to_set()));
}

/// Each filter on its own: a selection of districts passes the schools in
/// one of them; a selection of profiles those with one of the profiles;
/// grundständig `yes` the schools that take pupils after the 4th grade and
/// `no` all others; Ganztag likewise with all-day schooling.
pub proof fn lemma_single_filters(s: School, list: Seq<String>, flag: bool)
    ensures
        list.len() > 0 ==> (passes_filters(s, list, Seq::empty(), None, Seq::empty(), None) <==> exists|i: int|
            0 <= i < list.len() && (#[trigger] list[i])@ == s.district@),
        list.len() > 0 ==> (passes_filters(s, Seq::empty(), list, None, Seq::empty(), None) <==> exists|j: int, i: int|
            #![trigger s.profile@[j], list[i]]
            0 <= j < s.profile@.len() && 0 <= i < list.len() && s.profile@[j]@ == list[i]@),
        passes_filters(s, Seq::empty(), Seq::empty(), Some(flag), Seq::empty(), None) == (if flag {
            s.accepts_after_4th_grade == Some(true)
        } else {
            s.accepts_after_4th_grade != Some(true)
        }),
        passes_filters(s, Seq::empty(), Seq::empty(), None, Seq::empty(), Some(flag)) == (if flag {
            s.ganztag == Some(true)
        } else {
            s.ganztag != Some(true)
        }),
{
    if list.len() > 0 && passes_filters(s, Seq::empty(), list, None, Seq::empty(), None) {
        let j = choose|j: int| 0 <= j < s.profile@.len() && has_view(list, s.profile@[j]@);
        let i = choose|i: int| 0 <= i < list.len() && list[i]@ == s.profile@[j]@;
        assert(s.profile@[j]@ == list[i]@);
    }
    if list.len() > 0 && exists|j: int, i: int|
        #![trigger s.profile@[j], list[i]]
        0 <= j < s.profile@.len() && 0 <= i < list.len() && s.profile@[j]@ == list[i]@ {
        let (j, i) = choose|j: int, i: int|
            #![trigger s.profile@[j], list[i]]
            0 <= j < s.profile@.len() && 0 <= i < list.len() && s.profile@[j]@ == list[i]@;
        assert(has_view(list, s.profile@[j]@));
    }
}

/// The minutes of a travel mode to a school in a travel table, if known.
pub open spec fn minutes_to(field: SortField, entries: Seq<(String, TravelTimes)>, s: School) -> Option<u32> {
    match table_get(entries, s.school_id@) {
        Some(times) => match field {
            SortField::TravelTimeWalk => times.walk_minutes,
            SortField::TravelTimeBike => times.bike_minutes,
            SortField::TravelTimeCar => times.car_minutes,
            _ => None,
        },
        None => None,
    }
}

/// The number of students of a school, none counting as 0.
pub open spec fn students_of(s: School) -> int {
    match s.student_count {
        Some(c) => c as int,
        None => 0,
    }
}

/// Of two schools listed in this order: by name, the first name does not
/// come after the second; by district, likewise the districts; by student
/// count, the first has at least as many students, and with as many it
/// stands earlier in the data; by a travel time with times known, a school
/// with a time for the mode is preceded only by schools with a time no
/// longer than its own.
pub proof fn lemma_listing_sorted(
    schools: Seq<School>,
    districts: Seq<String>,
    profiles: Seq<String>,
    grundstaendig: Option<bool>,
    languages: Seq<String>,
    ganztag: Option<bool>,
    sort: SortField,
    tt: Option<Seq<(String, TravelTimes)>>,
    order: Seq<int>,
    a: int,
    b: int,
)
    requires
        is_listing_order(schools, districts, profiles, grundstaendig, languages, ganztag, sort, tt, order),
        0 <= a < b < order.len(),
    ensures
        ({
            let (x, y) = (schools[order[a]], schools[order[b]]);
            &&& sort == SortField::Name ==> !seq_lt(y.name@, x.name@)
            &&& sort == SortField::District ==> !seq_lt(y.district@, x.district@)
            &&& sort == SortField::StudentCount ==> students_of(x) > students_of(y) || (students_of(x)
                == students_of(y) && order[a] < order[b])
            &&& (tt matches Some(entries) && (sort == SortField::TravelTimeWalk || sort == SortField::TravelTimeBike
                || sort == SortField::TravelTimeCar) && minutes_to(sort, entries, y) is Some) ==> (minutes_to(
                sort,
                tt->0,
                x,
            ) is Some && minutes_to(sort, tt->0, x)->0 <= minutes_to(sort, tt->0, y)->0)
        }),
{
    let keys = Seq::new(schools.len(), |i: int| sort_key(sort, tt, schools[i]));
    let (i, j) = (order[a], order[b]);
    assert(ordered_before(keys, i, j));
    let (x, y) = (schools[i], schools[j]);
    assert(keys[i] == sort_key(sort, tt, x));
    assert(keys[j] == sort_key(sort, tt, y));
    lemma_seq_lt_total(x.name@, y.name@);
    lemma_seq_lt_total(x.district@, y.district@);
    lemma_seq_lt_total(y.name@, x.name@);
}

/// Applies the filters and orders the passing schools by the sort field
/// (stable: schools with equal keys keep their order).
pub fn filter_and_sort(
    schools: &Vec<School>,
    districts: &Vec<String>,
    profiles: &Vec<String>,
    grundstaendig: Option<bool>,
    languages: &Vec<String>,
    ganztag: Option<bool>,
    sort: &SortField,
    travel_times: &Option<TravelTable>,
) -> (r: Vec<School>)
    ensures
        exists|order: Seq<int>| {
            &&& is_listing_order(
                schools@,
                districts@,
                profiles@,
                grundstaendig,
                languages@,
                ganztag,
                *sort,
                table_view_spec(*travel_times),
                order,
            )
            &&& order.len() == r@.len()
            &&& forall|k: int| 0 <= k < r@.len() ==> same_school(#[trigger] r@[k], schools@[order[k]])
        },
{
    let n = schools.len();
    let ghost tt = table_view_spec(*travel_times);
    let ghost keys = Seq::new(schools@.len(), |i: int| sort_key(*sort, tt, schools@[i]));
    let mut ks: Vec<SortKey> = Vec::new();
    let mut i: usize = 0;
    while i < n
        invariant
            n == schools@.len(),
            i <= n,
            ks@.len() == i,
            tt == table_view_spec(*travel_times),
            keys == Seq::new(schools@.len(), |i: int| sort_key(*sort, tt, schools@[i])),
            forall|j: int| 0 <= j < i ==> (#[trigger] ks@[j]).view() == keys[j],
        decreases n - i,
    {
        let k = school_sort_key(*sort, travel_times, &schools[i]);
        ks.push(k);
        i = i + 1;
    }
    let mut idx: Vec<usize> = Vec::new();
    let mut j: usize = 0;
    while j < n
        invariant
            n == schools@.len(),
            j <= n,
            ks@.len() == n,
            forall|q: int| 0 <= q < n ==> (#[trigger] ks@[q]).view() == keys[q],
            keys.len() == n,
            forall|k: int| 0 <= k < idx@.len() ==> (#[trigger] idx@[k]) < j,
            forall|a: int, b: int| 0 <= a < b < idx@.len() ==> idx@[a] != idx@[b],
            forall|k: int| 0 <= k < idx@.len() ==> passes_filters(
                #[trigger] schools@[idx@[k] as int],
                districts@,
                profiles@,
                grundstaendig,
                languages@,
                ganztag,
            ),
            forall|q: int| 0 <= q < j && passes_filters(
                #[trigger] schools@[q],
                districts@,
                profiles@,
                grundstaendig,
                languages@,
                ganztag,
            ) ==> exists|k: int| 0 <= k < idx@.len() && idx@[k] == q,
            forall|a: int, b: int| 0 <= a < b < idx@.len() ==> ordered_before(keys, idx@[a] as int, idx@[b] as int),
        decreases n - j,
    {
        if school_passes(&schools[j], districts, profiles, grundstaendig, languages, ganztag) {
            let mut p = idx.len();
            while p > 0 && key_less(&ks[j], &ks[idx[p - 1]])
                invariant
                    p <= idx@.len(),
                    j < n,
                    ks@.len() == n,
                    forall|k: int| 0 <= k < idx@.len() ==> (#[trigger] idx@[k]) < j,
                    forall|q: int| 0 <= q < n ==> (#[trigger] ks@[q]).view() == keys[q],
                    forall|k: int| p <= k < idx@.len() ==> key_lt(keys[j as int], keys[#[trigger] idx@[k] as int]),
                decreases p,
            {
                p = p - 1;
            }
            let ghost old_idx = idx@;
            proof {
                if p > 0 {
                    assert(!key_lt(keys[j as int], keys[old_idx[p - 1] as int]));
                    lemma_key_lt_order(keys[j as int], keys[old_idx[p - 1] as int], keys[j as int]);
                    assert(ordered_before(keys, old_idx[p - 1] as int, j as int));
                }
            }
            idx.insert(p, j);
            proof {
                let ni = idx@;
                assert(ni =~= old_idx.insert(p as int, j));
                assert forall|a: int, b: int| 0 <= a < b < ni.len() implies ordered_before(keys, ni[a] as int, ni[b] as int) by {
                    if b < p {
                    } else if b == p {
                        if a < p - 1 {
                            lemma_ordered_before_trans(keys, ni[a] as int, old_idx[p - 1] as int, j as int);
                        }
                    } else if a < p {
                        assert(ni[b] == old_idx[b - 1]);
                        assert(ordered_before(keys, j as int, ni[b] as int));
                        if a < p - 1 {
                            lemma_ordered_before_trans(keys, ni[a] as int, old_idx[p - 1] as int, j as int);
                        }
                        lemma_ordered_before_trans(keys, ni[a] as int, j as int, ni[b] as int);
                    } else if a == p {
                        assert(ni[b] == old_idx[b - 1]);
                    } else {
                        assert(ni[a] == old_idx[a - 1]);
                        assert(ni[b] == old_idx[b - 1]);
                    }
                }
                assert forall|q: int| 0 <= q < j + 1 && passes_filters(
                    #[trigger] schools@[q],
                    districts@,
                    profiles@,
                    grundstaendig,
                    languages@,
                    ganztag,
                ) implies exists|k: int| 0 <= k < ni.len() && ni[k] == q by {
                    if q == j {
                        assert(ni[p as int] == q);
                    } else {
                        let k = choose|k: int| 0 <= k < old_idx.len() && old_idx[k] == q;
                        if k < p {
                            assert(ni[k] == q);
                        } else {
                            assert(ni[k + 1] == q);
                        }
                    }
                }
            }
        }
        j = j + 1;
    }
    let mut r: Vec<School> = Vec::new();
    let mut k: usize = 0;
    while k < idx.len()
        invariant
            n == schools@.len(),
            k <= idx@.len(),
            r@.len() == k,
            forall|q: int| 0 <= q < idx@.len() ==> (#[trigger] idx@[q]) < n,
            forall|q: int| 0 <= q < k ==> same_school(#[trigger] r@[q], schools@[idx@[q] as int]),
        decreases idx@.len() - k,
    {
        r.push(schools[idx[k]].duplicate());
        k = k + 1;
    }
    let ghost order = idx@.map_values(|x: usize| x as int);
    proof {
        assert forall|q: int| 0 <= q < n && passes_filters(
            #[trigger] schools@[q],
            districts@,
            profiles@,
            grundstaendig,
            languages@,
            ganztag,
        ) implies order.contains(q) by {
            let k = choose|k: int| 0 <= k < idx@.len() && idx@[k] == q;
            assert(order[k] == q);
        }
        assert(is_listing_order(
            schools@,
            districts@,
            profiles@,
            grundstaendig,
            languages@,
            ganztag,
            *sort,
            tt,
            order,
        ));
    }
    r
}

// ---------------------------------------------------------------------------
// Filter state in the query string

/// The test that keeps everything but `value`.
pub open spec fn not_equal_to(value: Seq<char>) -> spec_fn(Seq<char>) -> bool {
    |v: Seq<char>| v != value
}

/// `list` with `value` added when absent, or with every copy of it removed
/// when present.
pub open spec fn toggled(list: Seq<Seq<char>>, value: Seq<char>) -> Seq<Seq<char>> {
    if list.contains(value) {
        list.filter(not_equal_to(value))
    } else {
        list.push(value)
    }
}

/// Toggle a value in a list: add if absent, remove if present.
pub fn toggle_in_list(list: &Vec<String>, value: &str) -> (r: Vec<String>)
    ensures
        views(r@) == toggled(views(list@), value@),
{
    let v = owned(value);
    if contains_str(list, &v) {
        proof {
            let k = choose|k: int| 0 <= k < list@.len() && list@[k]@ == v@;
            assert(views(list@)[k] == value@);
        }
        let mut r: Vec<String> = Vec::new();
        let mut i: usize = 0;
        while i < list.len()
            invariant
                v@ == value@,
                i <= list@.len(),
                views(r@) == views(list@.take(i as int)).filter(not_equal_to(value@)),
            decreases list@.len() - i,
        {
            let ghost before = views(r@);
            proof {
                assert(views(list@.take(i + 1)) =~= views(list@.take(i as int)).push(list@[i as int]@));
                views(list@.take(i as int)).lemma_filter_push(list@[i as int]@, not_equal_to(value@));
            }
            if list[i] != v {
                r.push(list[i].clone());
                assert(views(r@) =~= before.push(list@[i as int]@));
            }
            i = i + 1;
        }
        assert(list@.take(list@.len() as int) =~= list@);
        r
    } else {
        proof {
            assert(!views(list@).contains(value@)) by {
                if views(list@).contains(value@) {
                    let k = choose|k: int| 0 <= k < views(list@).len() && views(list@)[k] == value@;
                    assert(list@[k]@ == value@);
                }
            }
        }
        let mut r: Vec<String> = crate::models::copy_strings(list);
        r.push(v);
        assert(views(r@) =~= views(list@).push(value@));
        r
    }
}

/// Toggling a value that is not in the list twice gives back the list.
pub proof fn lemma_toggle_twice(list: Seq<Seq<char>>, value: Seq<char>)
    requires
        !list.contains(value),
    ensures
        toggled(toggled(list, value), value) == list,
{
    let once = list.push(value);
    assert(once.contains(value)) by {
        assert(once[list.len() as int] == value);
    }
    list.lemma_filter_push(value, not_equal_to(value));
    assert(list.filter(not_equal_to(value)) =~= list) by {
        lemma_filter_keeps_all(list, value);
    }
}

/// Filtering out a value that does not occur keeps the sequence.
proof fn lemma_filter_keeps_all(list: Seq<Seq<char>>, value: Seq<char>)
    requires
        !list.contains(value),
    ensures
        list.filter(not_equal_to(value)) == list,
    decreases list.len(),
{
    if list.len() > 0 {
        assert(!list.drop_last().contains(value)) by {
            if list.drop_last().contains(value) {
                let k = choose|k: int| 0 <= k < list.drop_last().len() && list.drop_last()[k] == value;
                assert(list[k] == value);
            }
        }
        lemma_filter_keeps_all(list.drop_last(), value);
        assert(list.last() != value) by {
            assert(list[list.len() - 1] == list.last());
        }
        list.drop_last().lemma_filter_push(list.last(), not_equal_to(value));
        assert(list.drop_last().push(list.last()) =~= list);
    } else {
        assert(list.filter(not_equal_to(value)) =~= list);
    }
}

/// The values of a comma-separated parameter: nothing when the parameter is
/// absent or empty.
pub open spec fn csv_values(value: Option<Seq<char>>) -> Seq<Seq<char>> {
    match value {
        Some(v) => if v.len() == 0 { Seq::empty() } else { split_on(v, ',') },
        None => Seq::empty(),
    }
}

/// Parse a comma-separated query param value into a list.
pub fn parse_csv_param(value: Option<&str>) -> (r: Vec<String>)
    ensures
        views(r@) == csv_values(match value { Some(v) => Some(v@), None => None }),
{
    match value {
        Some(v) => {
            if v.is_empty() {
                let r: Vec<String> = Vec::new();
                assert(views(r@) =~= Seq::<Seq<char>>::empty());
                r
            } else {
                split_char(v, ',')
            }
        },
        None => {
            let r: Vec<String> = Vec::new();
            assert(views(r@) =~= Seq::<Seq<char>>::empty());
            r
        },
    }
}

/// The flag a tri-state parameter holds: `ja` yes, `nein` no, anything else
/// (or nothing) no preference.
pub open spec fn tristate_of(value: Option<Seq<char>>) -> Option<bool> {
    match value {
        Some(v) => if v == "ja"@ { Some(true) } else if v == "nein"@ { Some(false) } else { None },
        None => None,
    }
}

/// Parse a tri-state query param (ja/nein/absent) into a flag.
pub fn parse_tristate_param(value: Option<&str>) -> (r: Option<bool>)
    ensures
        r == tristate_of(match value { Some(v) => Some(v@), None => None }),
{
    match value {
        Some(v) => if str_eq(v, "ja") {
            Some(true)
        } else if str_eq(v, "nein") {
            Some(false)
        } else {
            None
        },
        None => None,
    }
}

/// The parameter for a tri-state filter, if it is set.
pub open spec fn tristate_param(key: Seq<char>, flag: Option<bool>) -> Seq<Seq<char>> {
    match flag {
        Some(true) => seq![key + "=ja"@],
        Some(false) => seq![key + "=nein"@],
        None => Seq::empty(),
    }
}

/// The parameter for a list filter, if the list is not empty.
pub open spec fn list_param(key: Seq<char>, list: Seq<Seq<char>>) -> Seq<Seq<char>> {
    if list.len() == 0 { Seq::empty() } else { seq![key + "="@ + join_with(list, ","@)] }
}

/// The sort parameter, unless the listing has the default order (by
/// student count).
pub open spec fn sort_param(sort: SortField) -> Seq<Seq<char>> {
    if sort != SortField::StudentCount { seq!["sort="@ + crate::models::sort_query_of(sort)] } else { Seq::empty() }
}

/// The view parameter, for the map view only.
pub open spec fn view_param(view: Seq<char>) -> Seq<Seq<char>> {
    if view == "map"@ { seq!["view=map"@] } else { Seq::empty() }
}

/// The address parameter: latitude and longitude, comma-separated.
pub open spec fn from_param(from_coords: Option<(Seq<char>, Seq<char>)>) -> Seq<Seq<char>> {
    match from_coords {
        Some((lat, lng)) => seq!["from="@ + lat + ","@ + lng],
        None => Seq::empty(),
    }
}

/// The parameters of a filter state, in order: districts, profiles,
/// grundständig, languages, ganztag, the sort field unless it is the
/// default order (by student count), the map view, and the address
/// coordinates.
pub open spec fn query_params(
    districts: Seq<Seq<char>>,
    profiles: Seq<Seq<char>>,
    grundstaendig: Option<bool>,
    languages: Seq<Seq<char>>,
    ganztag: Option<bool>,
    sort: SortField,
    view: Seq<char>,
    from_coords: Option<(Seq<char>, Seq<char>)>,
) -> Seq<Seq<char>> {
    list_param("district"@, districts)
        + list_param("profile"@, profiles)
        + tristate_param("grundstaendig"@, grundstaendig)
        + list_param("language"@, languages)
        + tristate_param("ganztag"@, ganztag)
        + sort_param(sort)
        + view_param(view)
        + from_param(from_coords)
}

fn push_list_param(params: &mut Vec<String>, key: &str, list: &Vec<String>)
    ensures
        views(final(params)@) == views(old(params)@) + list_param(key@, views(list@)),
{
    if list.len() != 0 {
        let joined = join(list.as_slice(), ",");
        let head = concat(key, "=");
        let p = concat(head.as_str(), joined.as_str());
        params.push(p);
        assert(views(params@) =~= views(old(params)@) + list_param(key@, views(list@)));
    } else {
        assert(views(params@) =~= views(old(params)@) + list_param(key@, views(list@)));
    }
}

fn push_tristate_param(params: &mut Vec<String>, key: &str, flag: Option<bool>)
    ensures
        views(final(params)@) == views(old(params)@) + tristate_param(key@, flag),
{
    match flag {
        Some(true) => params.push(concat(key, "=ja")),
        Some(false) => params.push(concat(key, "=nein")),
        None => {},
    }
    assert(views(params@) =~= views(old(params)@) + tristate_param(key@, flag));
}

/// Build a query string from filter state. Only includes non-default values:
/// no empty list, no unset tri-state filter, no sort parameter for the
/// default order (by student count), the view only for the map. Sorting by
/// name is written as `sort=name`, which reads back as the default order.
/// `from_coords` holds the already formatted latitude and longitude.
pub fn build_query_string(
    districts: &Vec<String>,
    profiles: &Vec<String>,
    grundstaendig: Option<bool>,
    languages: &Vec<String>,
    ganztag: Option<bool>,
    sort: &SortField,
    view: &str,
    from_coords: Option<(&str, &str)>,
) -> (r: String)
    ensures
        r@ == join_with(
            query_params(
                views(districts@),
                views(profiles@),
                grundstaendig,
                views(languages@),
                ganztag,
                *sort,
                view@,
                match from_coords { Some((a, b)) => Some((a@, b@)), None => None },
            ),
            "&"@,
        ),
{
    let mut params: Vec<String> = Vec::new();
    assert(views(params@) =~= Seq::<Seq<char>>::empty());
    push_list_param(&mut params, "district", districts);
    push_list_param(&mut params, "profile", profiles);
    push_tristate_param(&mut params, "grundstaendig", grundstaendig);
    push_list_param(&mut params, "language", languages);
    push_tristate_param(&mut params, "ganztag", ganztag);
    let ghost before_sort = views(params@);
    if *sort != SortField::StudentCount {
        params.push(concat("sort=", sort.to_query()));
    }
    assert(views(params@) =~= before_sort + sort_param(*sort));
    let ghost before_view = views(params@);
    if str_eq(view, "map") {
        params.push(owned("view=map"));
    }
    assert(views(params@) =~= before_view + view_param(view@));
    let ghost before_from = views(params@);
    match from_coords {
        Some((lat, lng)) => {
            let a = concat("from=", lat);
            let b = concat(a.as_str(), ",");
            params.push(concat(b.as_str(), lng));
        },
        None => {},
    }
    assert(views(params@) =~= before_from + from_param(
        match from_coords { Some((a, b)) => Some((a@, b@)), None => None },
    ));
    assert(views(params@) =~= query_params(
        views(districts@),
        views(profiles@),
        grundstaendig,
        views(languages@),
        ganztag,
        *sort,
        view@,
        match from_coords { Some((a, b)) => Some((a@, b@)), None => None },
    ));
    join(params.as_slice(), "&")
}

/// Number of active filters: every selected district, profile and language,
/// plus one for each tri-state filter that is set.
pub fn active_filter_count(
    districts: &Vec<String>,
    profiles: &Vec<String>,
    grundstaendig: Option<bool>,
    languages: &Vec<String>,
    ganztag: Option<bool>,
) -> (r: usize)
    requires
        districts@.len() + profiles@.len() + languages@.len() + 2 <= usize::MAX,
    ensures
        r == districts@.len() + profiles@.len() + languages@.len() + (if grundstaendig is Some {
            1int
        } else {
            0
        }) + (if ganztag is Some { 1int } else { 0 }),
{
    let mut count = districts.len() + profiles.len();
    if grundstaendig.is_some() {
        count = count + 1;
    }
    count = count + languages.len();
    if ganztag.is_some() {
        count = count + 1;
    }
    count
}

/// The two comma-separated parts of the `from` parameter (latitude and
/// longitude text), when it has exactly two.
pub fn split_coords_param(value: &str) -> (r: Option<(String, String)>)
    ensures
        split_on(value@, ',').len() == 2 <==> r is Some,
        r matches Some((a, b)) ==> a@ == split_on(value@, ',')[0] && b@ == split_on(value@, ',')[1],
{
    let parts = split_char(value, ',');
    if parts.len() == 2 {
        assert(views(parts@)[0] == parts@[0]@);
        assert(views(parts@)[1] == parts@[1]@);
        Some((parts[0].clone(), parts[1].clone()))
    } else {
        None
    }
}

} // verus!
