//! The school model, the listing's sort fields and the option lists of the
//! filter panel.
//!
//! Decimal measurements (grades, rates, ratios, scores) are held as whole
//! numbers of thousandths (`1.85` is `1850`); coordinates as whole numbers of
//! millionths of a degree.
use vstd::prelude::*;

use crate::text::{chars_lt, chars_of, lemma_seq_lt_total, lemma_seq_lt_trans, seq_lt, str_eq, views};

verus! {

broadcast use vstd::string::group_string_axioms;

/// Number of units in one whole for decimal measurements.
pub const MILLI: u32 = 1000;

/// A position in millionths of a degree.
#[derive(Clone, Copy, Debug)]
pub struct Coords {
    pub lat: i64,
    pub lng: i64,
}

/// A foreign language taught, with the grade it starts in.
#[derive(Clone, Debug)]
pub struct LanguageEntry {
    pub name: String,
    pub from_grade: Option<u32>,
}

/// Admission requirements; `notendurchschnitt` and `demand_ratio` in thousandths.
#[derive(Clone, Debug)]
pub struct AdmissionRequirements {
    pub notendurchschnitt: Option<u32>,
    pub oversubscribed: Option<bool>,
    pub selection_criteria: Option<String>,
    pub probeunterricht: Option<bool>,
    pub entrance_test: Option<bool>,
    pub notes: Option<String>,
    pub first_choices: Option<u32>,
    pub places: Option<u32>,
    pub demand_ratio: Option<u32>,
}

/// A rating from one source; `score`, `scale_min` and `scale_max` in thousandths.
#[derive(Clone, Debug)]
pub struct RatingEntry {
    pub source: String,
    pub score: Option<u32>,
    pub scale_min: u32,
    pub scale_max: u32,
    pub review_count: Option<u32>,
    pub retrieved: String,
}

/// A single Berlin Gymnasium.
///
/// `abitur_average`, `abitur_pass_rate` (percent) and `completeness_score`
/// are in thousandths. The keyed collections hold `(key, value)` pairs.
#[derive(Clone, Debug)]
pub struct School {
    pub school_id: String,
    pub name: String,
    pub district: String,
    pub last_updated: String,
    pub address: Option<String>,
    pub coords: Option<Coords>,
    pub website: Option<String>,
    pub phone: Option<String>,
    pub email: Option<String>,
    pub traeger: Option<String>,
    pub student_count: Option<u32>,
    pub teacher_count: Option<u32>,
    pub accepts_after_4th_grade: Option<bool>,
    pub profile: Vec<String>,
    pub ganztag: Option<bool>,
    pub languages: Vec<LanguageEntry>,
    pub open_day: Option<String>,
    pub admission_requirements: Option<AdmissionRequirements>,
    pub abitur_average: Option<u32>,
    pub abitur_pass_rate: Option<u32>,
    pub abitur_student_count: Option<u32>,
    pub image_urls: Vec<String>,
    pub social_media: Vec<(String, String)>,
    pub ratings: Vec<(String, RatingEntry)>,
    pub completeness_score: Option<u32>,
    pub field_confidence: Vec<(String, String)>,
    pub data_sources: Vec<String>,
    pub unverified_fields: Vec<String>,
    pub pinned_fields: Vec<String>,
}

/// Travel times from the user's address to a school, in minutes.
#[derive(Clone, Copy, Debug, PartialEq, Eq, Structural)]
pub struct TravelTimes {
    pub walk_minutes: Option<u32>,
    pub bike_minutes: Option<u32>,
    pub car_minutes: Option<u32>,
}

impl Default for TravelTimes {
    fn default() -> (r: TravelTimes)
        ensures
            r.walk_minutes is None,
            r.bike_minutes is None,
            r.car_minutes is None,
    {
        TravelTimes { walk_minutes: None, bike_minutes: None, car_minutes: None }
    }
}

// ---------------------------------------------------------------------------
// Copies whose results Verus knows to equal their sources.

pub fn copy_string(s: &String) -> (r: String)
    ensures
        r == *s,
{
    s.clone()
}

pub fn copy_opt_string(s: &Option<String>) -> (r: Option<String>)
    ensures
        r == *s,
{
    match s {
        Some(x) => Some(x.clone()),
        None => None,
    }
}

pub fn copy_strings(v: &Vec<String>) -> (r: Vec<String>)
    ensures
        r@ == v@,
{
    let mut r: Vec<String> = Vec::new();
    let mut i: usize = 0;
    while i < v.len()
        invariant
            i <= v@.len(),
            r@ == v@.take(i as int),
        decreases v@.len() - i,
    {
        r.push(v[i].clone());
        i = i + 1;
        assert(r@ =~= v@.take(i as int));
    }
    assert(v@.take(v@.len() as int) =~= v@);
    r
}

pub fn copy_pairs(v: &Vec<(String, String)>) -> (r: Vec<(String, String)>)
    ensures
        r@ == v@,
{
    let mut r: Vec<(String, String)> = Vec::new();
    let mut i: usize = 0;
    while i < v.len()
        invariant
            i <= v@.len(),
            r@ == v@.take(i as int),
        decreases v@.len() - i,
    {
        let p = (v[i].0.clone(), v[i].1.clone());
        r.push(p);
        i = i + 1;
        assert(r@ =~= v@.take(i as int));
    }
    assert(v@.take(v@.len() as int) =~= v@);
    r
}

impl Coords {
    pub fn duplicate(&self) -> (r: Coords)
        ensures
            r == *self,
    {
        Coords { lat: self.lat, lng: self.lng }
    }
}

impl LanguageEntry {
    pub fn duplicate(&self) -> (r: LanguageEntry)
        ensures
            r == *self,
    {
        LanguageEntry { name: self.name.clone(), from_grade: self.from_grade }
    }
}

impl AdmissionRequirements {
    pub fn duplicate(&self) -> (r: AdmissionRequirements)
        ensures
            r == *self,
    {
        AdmissionRequirements {
            notendurchschnitt: self.notendurchschnitt,
            oversubscribed: self.oversubscribed,
            selection_criteria: copy_opt_string(&self.selection_criteria),
            probeunterricht: self.probeunterricht,
            entrance_test: self.entrance_test,
            notes: copy_opt_string(&self.notes),
            first_choices: self.first_choices,
            places: self.places,
            demand_ratio: self.demand_ratio,
        }
    }
}

impl RatingEntry {
    pub fn duplicate(&self) -> (r: RatingEntry)
        ensures
            r == *self,
    {
        RatingEntry {
            source: self.source.clone(),
            score: self.score,
            scale_min: self.scale_min,
            scale_max: self.scale_max,
            review_count: self.review_count,
            retrieved: self.retrieved.clone(),
        }
    }
}

fn copy_languages(v: &Vec<LanguageEntry>) -> (r: Vec<LanguageEntry>)
    ensures
        r@ == v@,
{
    let mut r: Vec<LanguageEntry> = Vec::new();
    let mut i: usize = 0;
    while i < v.len()
        invariant
            i <= v@.len(),
            r@ == v@.take(i as int),
        decreases v@.len() - i,
    {
        r.push(v[i].duplicate());
        i = i + 1;
        assert(r@ =~= v@.take(i as int));
    }
    assert(v@.take(v@.len() as int) =~= v@);
    r
}

fn copy_ratings(v: &Vec<(String, RatingEntry)>) -> (r: Vec<(String, RatingEntry)>)
    ensures
        r@ == v@,
{
    let mut r: Vec<(String, RatingEntry)> = Vec::new();
    let mut i: usize = 0;
    while i < v.len()
        invariant
            i <= v@.len(),
            r@ == v@.take(i as int),
        decreases v@.len() - i,
    {
        let p = (v[i].0.clone(), v[i].1.duplicate());
        r.push(p);
        i = i + 1;
        assert(r@ =~= v@.take(i as int));
    }
    assert(v@.take(v@.len() as int) =~= v@);
    r
}

/// `a` and `b` hold the same data: equal fields, and sequences with equal contents.
pub open spec fn same_school(a: School, b: School) -> bool {
    &&& a.school_id == b.school_id
    &&& a.name == b.name
    &&& a.district == b.district
    &&& a.last_updated == b.last_updated
    &&& a.address == b.address
    &&& a.coords == b.coords
    &&& a.website == b.website
    &&& a.phone == b.phone
    &&& a.email == b.email
    &&& a.traeger == b.traeger
    &&& a.student_count == b.student_count
    &&& a.teacher_count == b.teacher_count
    &&& a.accepts_after_4th_grade == b.accepts_after_4th_grade
    &&& a.profile@ == b.profile@
    &&& a.ganztag == b.ganztag
    &&& a.languages@ == b.languages@
    &&& a.open_day == b.open_day
    &&& a.admission_requirements == b.admission_requirements
    &&& a.abitur_average == b.abitur_average
    &&& a.abitur_pass_rate == b.abitur_pass_rate
    &&& a.abitur_student_count == b.abitur_student_count
    &&& a.image_urls@ == b.image_urls@
    &&& a.social_media@ == b.social_media@
    &&& a.ratings@ == b.ratings@
    &&& a.completeness_score == b.completeness_score
    &&& a.field_confidence@ == b.field_confidence@
    &&& a.data_sources@ == b.data_sources@
    &&& a.unverified_fields@ == b.unverified_fields@
    &&& a.pinned_fields@ == b.pinned_fields@
}

impl School {
    /// A copy of the school, field by field.
    pub fn duplicate(&self) -> (r: School)
        ensures
            same_school(r, *self),
    {
        School {
            school_id: self.school_id.clone(),
            name: self.name.clone(),
            district: self.district.clone(),
            last_updated: self.last_updated.clone(),
            address: copy_opt_string(&self.address),
            coords: match &self.coords {
                Some(c) => Some(c.duplicate()),
                None => None,
            },
            website: copy_opt_string(&self.website),
            phone: copy_opt_string(&self.phone),
            email: copy_opt_string(&self.email),
            traeger: copy_opt_string(&self.traeger),
            student_count: self.student_count,
            teacher_count: self.teacher_count,
            accepts_after_4th_grade: self.accepts_after_4th_grade,
            profile: copy_strings(&self.profile),
            ganztag: self.ganztag,
            languages: copy_languages(&self.languages),
            open_day: copy_opt_string(&self.open_day),
            admission_requirements: match &self.admission_requirements {
                Some(a) => Some(a.duplicate()),
                None => None,
            },
            abitur_average: self.abitur_average,
            abitur_pass_rate: self.abitur_pass_rate,
            abitur_student_count: self.abitur_student_count,
            image_urls: copy_strings(&self.image_urls),
            social_media: copy_pairs(&self.social_media),
            ratings: copy_ratings(&self.ratings),
            completeness_score: self.completeness_score,
            field_confidence: copy_pairs(&self.field_confidence),
            data_sources: copy_strings(&self.data_sources),
            unverified_fields: copy_strings(&self.unverified_fields),
            pinned_fields: copy_strings(&self.pinned_fields),
        }
    }
}

// ---------------------------------------------------------------------------
// Sort field

/// Sort field for the school listing.
#[derive(Clone, Copy, Debug, PartialEq, Eq, Structural)]
pub enum SortField {
    Name,
    District,
    StudentCount,
    TravelTimeWalk,
    TravelTimeBike,
    TravelTimeCar,
}

impl Default for SortField {
    /// The listing is ordered by student count unless asked otherwise.
    fn default() -> (r: SortField)
        ensures
            r == SortField::StudentCount,
    {
        SortField::StudentCount
    }
}

/// The sort field a query value names; unknown values give the default.
pub open spec fn sort_field_of(s: Seq<char>) -> SortField {
    if s == "district"@ {
        SortField::District
    } else if s == "students"@ {
        SortField::StudentCount
    } else if s == "travel_walk"@ {
        SortField::TravelTimeWalk
    } else if s == "travel_bike"@ {
        SortField::TravelTimeBike
    } else if s == "travel_car"@ {
        SortField::TravelTimeCar
    } else {
        SortField::StudentCount
    }
}

/// The query value of a sort field.
pub open spec fn sort_query_of(f: SortField) -> Seq<char> {
    match f {
        SortField::Name => "name"@,
        SortField::District => "district"@,
        SortField::StudentCount => "students"@,
        SortField::TravelTimeWalk => "travel_walk"@,
        SortField::TravelTimeBike => "travel_bike"@,
        SortField::TravelTimeCar => "travel_car"@,
    }
}

/// Whether a sort field orders by travel time.
pub open spec fn is_travel(f: SortField) -> bool {
    f == SortField::TravelTimeWalk || f == SortField::TravelTimeBike || f == SortField::TravelTimeCar
}

impl SortField {
    /// Reads a sort field from its query value.
    pub fn from_query(s: &str) -> (r: SortField)
        ensures
            r == sort_field_of(s@),
    {
        if str_eq(s, "district") {
            SortField::District
        } else if str_eq(s, "students") {
            SortField::StudentCount
        } else if str_eq(s, "travel_walk") {
            SortField::TravelTimeWalk
        } else if str_eq(s, "travel_bike") {
            SortField::TravelTimeBike
        } else if str_eq(s, "travel_car") {
            SortField::TravelTimeCar
        } else {
            SortField::default()
        }
    }

    /// The query value of this sort field.
    pub fn to_query(&self) -> (r: &'static str)
        ensures
            r@ == sort_query_of(*self),
    {
        match self {
            SortField::Name => "name",
            SortField::District => "district",
            SortField::StudentCount => "students",
            SortField::TravelTimeWalk => "travel_walk",
            SortField::TravelTimeBike => "travel_bike",
            SortField::TravelTimeCar => "travel_car",
        }
    }

    /// Returns true if this sort field is a travel time variant.
    pub fn is_travel_time(&self) -> (r: bool)
        ensures
            r == is_travel(*self),
    {
        match self {
            SortField::TravelTimeWalk | SortField::TravelTimeBike | SortField::TravelTimeCar => true,
            _ => false,
        }
    }
}

/// Reading back the query value of a sort field gives that field, for every
/// field but `Name`, whose value `"name"` is not recognised and reads back as
/// the default.
pub proof fn lemma_sort_query_roundtrip(f: SortField)
    ensures
        f != SortField::Name ==> sort_field_of(sort_query_of(f)) == f,
        sort_field_of(sort_query_of(SortField::Name)) == SortField::StudentCount,
{
    reveal_strlit("name");
    reveal_strlit("district");
    reveal_strlit("students");
    reveal_strlit("travel_walk");
    reveal_strlit("travel_bike");
    reveal_strlit("travel_car");
    assert("name"@[0] == 'n');
    assert("district"@[0] == 'd');
    assert("students"@[0] == 's');
    assert("name"@ != "district"@);
    assert("name"@ != "students"@);
    assert("name"@ != "travel_walk"@);
    assert("name"@ != "travel_bike"@);
    assert("name"@ != "travel_car"@);
    assert("students"@ != "district"@);
    assert("travel_walk"@ != "district"@);
    assert("travel_walk"@ != "students"@);
    assert("travel_bike"@ != "district"@);
    assert("travel_bike"@ != "students"@);
    assert("travel_bike"@[7] == 'b');
    assert("travel_walk"@[7] == 'w');
    assert("travel_car"@[7] == 'c');
    assert("travel_bike"@ != "travel_walk"@);
    assert("travel_car"@ != "district"@);
    assert("travel_car"@ != "students"@);
    assert("travel_car"@ != "travel_walk"@);
    assert("travel_car"@ != "travel_bike"@);
}

// ---------------------------------------------------------------------------
// Option lists: sorted, without repetition

/// Every element comes strictly before the next in code point order.
pub open spec fn strictly_sorted(s: Seq<Seq<char>>) -> bool {
    forall|i: int, j: int| 0 <= i < j < s.len() ==> seq_lt(s[i], s[j])
}

/// Inserts `x` into a strictly sorted list unless it is already there.
fn insert_sorted(list: &mut Vec<String>, x: &String)
    requires
        strictly_sorted(views(old(list)@)),
    ensures
        strictly_sorted(views(final(list)@)),
        views(final(list)@).to_set() == views(old(list)@).to_set().insert(x@),
{
    let xs = chars_of(x.as_str());
    let mut p: usize = 0;
    while p < list.len()
        invariant
            xs@ == x@,
            list@ == old(list)@,
            p <= list@.len(),
            forall|k: int| 0 <= k < p ==> seq_lt(views(list@)[k], x@),
        ensures
            xs@ == x@,
            list@ == old(list)@,
            p <= list@.len(),
            forall|k: int| 0 <= k < p ==> seq_lt(views(list@)[k], x@),
            p < list@.len() ==> !seq_lt(views(list@)[p as int], x@),
        decreases list@.len() - p,
    {
        let cur = chars_of(list[p].as_str());
        if !chars_lt(cur.as_slice(), xs.as_slice()) {
            break;
        }
        p = p + 1;
    }
    let ghost old_views = views(list@);
    if p < list.len() {
        let cur = chars_of(list[p].as_str());
        if crate::text::chars_eq(cur.as_slice(), xs.as_slice()) {
            assert(old_views[p as int] == x@);
            assert(old_views.to_set().insert(x@) =~= old_views.to_set());
            return;
        }
        proof {
            lemma_seq_lt_total(old_views[p as int], x@);
            assert forall|j: int| p < j < old_views.len() implies seq_lt(x@, old_views[j]) by {
                lemma_seq_lt_trans(x@, old_views[p as int], old_views[j]);
            }
        }
    }
    list.insert(p, x.clone());
    proof {
        let nv = views(list@);
        assert(nv =~= old_views.insert(p as int, x@));
        assert forall|i: int, j: int| 0 <= i < j < nv.len() implies seq_lt(nv[i], nv[j]) by {
            if j < p {
            } else if j == p {
            } else if i < p {
                assert(nv[j] == old_views[j - 1]);
                lemma_seq_lt_trans(nv[i], x@, nv[j]);
            } else if i == p {
                assert(nv[j] == old_views[j - 1]);
            } else {
                assert(nv[i] == old_views[i - 1]);
                assert(nv[j] == old_views[j - 1]);
            }
        }
        assert forall|v: Seq<char>| nv.to_set().contains(v) <==> old_views.to_set().insert(x@).contains(v) by {
            if nv.contains(v) {
                let k = choose|k: int| 0 <= k < nv.len() && nv[k] == v;
                if k < p {
                    assert(old_views[k] == v);
                } else if k > p {
                    assert(old_views[k - 1] == v);
                }
            }
            if old_views.contains(v) {
                let k = choose|k: int| 0 <= k < old_views.len() && old_views[k] == v;
                if k < p {
                    assert(nv[k] == v);
                } else {
                    assert(nv[k + 1] == v);
                }
            }
            if v == x@ {
                assert(nv[p as int] == v);
            }
        }
        assert(nv.to_set() =~= old_views.to_set().insert(x@));
    }
}

/// The districts of all schools.
pub open spec fn district_set(schools: Seq<School>) -> Set<Seq<char>> {
    Set::new(|d: Seq<char>| exists|i: int| 0 <= i < schools.len() && schools[i].district@ == d)
}

/// The profiles named by any school.
pub open spec fn profile_set(schools: Seq<School>) -> Set<Seq<char>> {
    Set::new(|p: Seq<char>| exists|i: int, j: int| 0 <= i < schools.len() && 0 <= j < schools[i].profile@.len()
        && schools[i].profile@[j]@ == p)
}

/// The languages taught at any school.
pub open spec fn language_set(schools: Seq<School>) -> Set<Seq<char>> {
    Set::new(|l: Seq<char>| exists|i: int, j: int| 0 <= i < schools.len() && 0 <= j < schools[i].languages@.len()
        && schools[i].languages@[j].name@ == l)
}

/// Sorted unique district names of all schools.
pub fn all_districts(schools: &[School]) -> (r: Vec<String>)
    ensures
        strictly_sorted(views(r@)),
        views(r@).to_set() == district_set(schools@),
{
    let mut r: Vec<String> = Vec::new();
    let mut i: usize = 0;
    while i < schools.len()
        invariant
            i <= schools@.len(),
            strictly_sorted(views(r@)),
            views(r@).to_set() == district_set(schools@.take(i as int)),
        decreases schools@.len() - i,
    {
        insert_sorted(&mut r, &schools[i].district);
        proof {
            let t = schools@.take(i + 1);
            assert forall|d: Seq<char>| district_set(t).contains(d) <==> district_set(schools@.take(i as int)).insert(schools@[i as int].district@).contains(d) by {
                if district_set(t).contains(d) {
                    let k = choose|k: int| 0 <= k < t.len() && t[k].district@ == d;
                    if k < i {
                        assert(schools@.take(i as int)[k] == t[k]);
                    }
                }
                if district_set(schools@.take(i as int)).contains(d) {
                    let k = choose|k: int| 0 <= k < i && schools@.take(i as int)[k].district@ == d;
                    assert(t[k] == schools@.take(i as int)[k]);
                }
                if d == schools@[i as int].district@ {
                    assert(t[i as int] == schools@[i as int]);
                }
            }
            assert(district_set(t) =~= district_set(schools@.take(i as int)).insert(schools@[i as int].district@));
        }
        i = i + 1;
    }
    assert(schools@.take(schools@.len() as int) =~= schools@);
    assert(district_set(schools@.take(0)) =~= Set::empty()) by {
        assert forall|d: Seq<char>| !district_set(schools@.take(0)).contains(d) by {}
    }
    r
}

/// Inserts every string of `items` into a strictly sorted list.
pub fn insert_all_sorted(list: &mut Vec<String>, items: &Vec<String>)
    requires
        strictly_sorted(views(old(list)@)),
    ensures
        strictly_sorted(views(final(list)@)),
        views(final(list)@).to_set() == views(old(list)@).to_set().union(views(items@).to_set()),
{
    let ghost start = views(list@).to_set();
    let mut j: usize = 0;
    while j < items.len()
        invariant
            j <= items@.len(),
            strictly_sorted(views(list@)),
            views(list@).to_set() == start.union(views(items@.take(j as int)).to_set()),
        decreases items@.len() - j,
    {
        insert_sorted(list, &items[j]);
        proof {
            assert(views(items@.take(j + 1)) =~= views(items@.take(j as int)).push(items@[j as int]@));
            assert(views(items@.take(j + 1)).to_set() =~= views(items@.take(j as int)).to_set().insert(items@[j as int]@)) by {
                views(items@.take(j as int)).lemma_push_to_set_commute(items@[j as int]@);
            }
            assert(views(list@).to_set() =~= start.union(views(items@.take(j + 1)).to_set()));
        }
        j = j + 1;
    }
    assert(items@.take(items@.len() as int) =~= items@);
}

/// The names of the languages of one school.
pub open spec fn language_names(langs: Seq<LanguageEntry>) -> Seq<Seq<char>> {
    langs.map_values(|l: LanguageEntry| l.name@)
}

fn names_of(langs: &Vec<LanguageEntry>) -> (r: Vec<String>)
    ensures
        views(r@) == language_names(langs@),
{
    let mut r: Vec<String> = Vec::new();
    let mut i: usize = 0;
    while i < langs.len()
        invariant
            i <= langs@.len(),
            views(r@) == language_names(langs@.take(i as int)),
        decreases langs@.len() - i,
    {
        let n = langs[i].name.clone();
        let ghost before = views(r@);
        r.push(n);
        assert(views(r@) =~= before.push(langs@[i as int].name@));
        assert(language_names(langs@.take(i + 1)) =~= language_names(langs@.take(i as int)).push(langs@[i as int].name@));
        i = i + 1;
    }
    assert(langs@.take(langs@.len() as int) =~= langs@);
    r
}

/// Profiles of the first `i` schools.
spec fn profiles_upto(schools: Seq<School>, i: int) -> Set<Seq<char>> {
    Set::new(|p: Seq<char>| exists|a: int, b: int| 0 <= a < i && 0 <= b < schools[a].profile@.len()
        && schools[a].profile@[b]@ == p)
}

/// Languages of the first `i` schools.
spec fn languages_upto(schools: Seq<School>, i: int) -> Set<Seq<char>> {
    Set::new(|l: Seq<char>| exists|a: int, b: int| 0 <= a < i && 0 <= b < schools[a].languages@.len()
        && schools[a].languages@[b].name@ == l)
}

/// Sorted unique profile names of all schools.
pub fn all_profiles(schools: &[School]) -> (r: Vec<String>)
    ensures
        strictly_sorted(views(r@)),
        views(r@).to_set() == profile_set(schools@),
{
    let mut r: Vec<String> = Vec::new();
    let mut i: usize = 0;
    assert(views(r@).to_set() =~= profiles_upto(schools@, 0));
    while i < schools.len()
        invariant
            i <= schools@.len(),
            strictly_sorted(views(r@)),
            views(r@).to_set() == profiles_upto(schools@, i as int),
        decreases schools@.len() - i,
    {
        insert_all_sorted(&mut r, &schools[i].profile);
        proof {
            let cur = schools@[i as int].profile@;
            assert forall|p: Seq<char>| profiles_upto(schools@, i + 1).contains(p)
                <==> profiles_upto(schools@, i as int).union(views(cur).to_set()).contains(p) by {
                if profiles_upto(schools@, i + 1).contains(p) {
                    let (a, b) = choose|a: int, b: int| 0 <= a < i + 1 && 0 <= b < schools@[a].profile@.len()
                        && schools@[a].profile@[b]@ == p;
                    if a == i {
                        assert(views(cur)[b] == p);
                    }
                }
                if views(cur).to_set().contains(p) {
                    let b = choose|b: int| 0 <= b < views(cur).len() && views(cur)[b] == p;
                    assert(schools@[i as int].profile@[b]@ == p);
                }
            }
            assert(views(r@).to_set() =~= profiles_upto(schools@, i + 1));
        }
        i = i + 1;
    }
    assert(profiles_upto(schools@, schools@.len() as int) =~= profile_set(schools@));
    r
}

/// Sorted unique language names of all schools.
pub fn all_languages(schools: &[School]) -> (r: Vec<String>)
    ensures
        strictly_sorted(views(r@)),
        views(r@).to_set() == language_set(schools@),
{
    let mut r: Vec<String> = Vec::new();
    let mut i: usize = 0;
    assert(views(r@).to_set() =~= languages_upto(schools@, 0));
    while i < schools.len()
        invariant
            i <= schools@.len(),
            strictly_sorted(views(r@)),
            views(r@).to_set() == languages_upto(schools@, i as int),
        decreases schools@.len() - i,
    {
        let names = names_of(&schools[i].languages);
        insert_all_sorted(&mut r, &names);
        proof {
            let cur = language_names(schools@[i as int].languages@);
            assert forall|l: Seq<char>| languages_upto(schools@, i + 1).contains(l)
                <==> languages_upto(schools@, i as int).union(cur.to_set()).contains(l) by {
                if languages_upto(schools@, i + 1).contains(l) {
                    let (a, b) = choose|a: int, b: int| 0 <= a < i + 1 && 0 <= b < schools@[a].languages@.len()
                        && schools@[a].languages@[b].name@ == l;
                    if a == i {
                        assert(cur[b] == l);
                    }
                }
                if cur.to_set().contains(l) {
                    let b = choose|b: int| 0 <= b < cur.len() && cur[b] == l;
                    assert(schools@[i as int].languages@[b].name@ == l);
                }
            }
            assert(views(r@).to_set() =~= languages_upto(schools@, i + 1));
        }
        i = i + 1;
    }
    assert(languages_upto(schools@, schools@.len() as int) =~= language_set(schools@));
    r
}

} // verus!
