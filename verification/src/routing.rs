//! Travel times per school, assembled from the per-mode answers of the
//! routing service.
use vstd::prelude::*;

use crate::models::TravelTimes;
use crate::text::str_eq;

verus! {

/// Travel times keyed by school id. Entries are kept in insertion order; a
/// lookup finds the latest entry for an id, so inserting an id again
/// replaces its times.
#[derive(Clone, Debug)]
pub struct TravelTable {
    pub entries: Vec<(String, TravelTimes)>,
}

/// The times the latest entry for `id` holds, if any.
pub open spec fn table_get(entries: Seq<(String, TravelTimes)>, id: Seq<char>) -> Option<TravelTimes>
    decreases entries.len(),
{
    if entries.len() == 0 {
        None
    } else if entries.last().0@ == id {
        Some(entries.last().1)
    } else {
        table_get(entries.drop_last(), id)
    }
}

impl TravelTable {
    /// An empty table.
    pub fn new() -> (r: TravelTable)
        ensures
            r.entries@.len() == 0,
    {
        TravelTable { entries: Vec::new() }
    }

    /// The times recorded for a school.
    pub fn get(&self, id: &str) -> (r: Option<TravelTimes>)
        ensures
            r == table_get(self.entries@, id@),
    {
        let mut k = self.entries.len();
        assert(self.entries@.take(k as int) =~= self.entries@);
        while k > 0
            invariant
                k <= self.entries@.len(),
                table_get(self.entries@, id@) == table_get(self.entries@.take(k as int), id@),
            decreases k,
        {
            let ghost t = self.entries@.take(k as int);
            assert(t.drop_last() =~= self.entries@.take(k - 1));
            if str_eq(self.entries[k - 1].0.as_str(), id) {
                return Some(self.entries[k - 1].1);
            }
            k = k - 1;
        }
        proof {
            assert(self.entries@.take(0).len() == 0);
        }
        None
    }

    /// Records the times of a school, replacing earlier ones.
    pub fn insert(&mut self, id: String, times: TravelTimes)
        ensures
            final(self).entries@ == old(self).entries@.push((id, times)),
            forall|k: Seq<char>| table_get(final(self).entries@, k)
                == if k == id@ { Some(times) } else { table_get(old(self).entries@, k) },
    {
        let ghost before = self.entries@;
        self.entries.push((id, times));
        assert(self.entries@.drop_last() =~= before);
    }
}

/// A lookup finds the times of an id recorded once: with no other entry
/// under the same id, the table gives that entry's times.
pub proof fn lemma_table_get_unique(entries: Seq<(String, TravelTimes)>, i: int)
    requires
        0 <= i < entries.len(),
        forall|j: int| 0 <= j < entries.len() && j != i ==> (#[trigger] entries[j]).0@ != entries[i].0@,
    ensures
        table_get(entries, entries[i].0@) == Some(entries[i].1),
    decreases entries.len(),
{
    if i < entries.len() - 1 {
        let init = entries.drop_last();
        assert(entries[entries.len() - 1].0@ != entries[i].0@);
        assert forall|j: int| 0 <= j < init.len() && j != i implies (#[trigger] init[j]).0@ != init[i].0@ by {
            assert(init[j] == entries[j]);
        }
        lemma_table_get_unique(init, i);
        assert(init[i] == entries[i]);
    }
}

/// Element `i` of a per-target answer, or none where the answer is shorter.
pub open spec fn answer_at(times: Seq<Option<u32>>, i: int) -> Option<u32> {
    if 0 <= i < times.len() { times[i] } else { None }
}

/// The per-target times of a mode's answer: nothing when the request failed.
pub open spec fn answer_times(r: Result<Vec<Option<u32>>, String>) -> Seq<Option<u32>> {
    match r {
        Ok(v) => v@,
        Err(_) => Seq::empty(),
    }
}

fn pick(times: &Result<Vec<Option<u32>>, String>, i: usize) -> (r: Option<u32>)
    ensures
        r == answer_at(answer_times(*times), i as int),
{
    match times {
        Ok(v) => if i < v.len() { v[i] } else { None },
        Err(_) => None,
    }
}

/// Builds the table from the answers for walking, cycling and driving:
/// school `i` of `school_ids` gets element `i` of each answer. A failed or
/// short answer leaves the times of that mode empty.
pub fn combine_travel_times(
    school_ids: &Vec<String>,
    walk: &Result<Vec<Option<u32>>, String>,
    bike: &Result<Vec<Option<u32>>, String>,
    car: &Result<Vec<Option<u32>>, String>,
) -> (r: TravelTable)
    ensures
        r.entries@.len() == school_ids@.len(),
        forall|i: int| 0 <= i < school_ids@.len() ==> (#[trigger] r.entries@[i]).0 == school_ids@[i],
        forall|i: int| 0 <= i < school_ids@.len() ==> (#[trigger] r.entries@[i]).1 == (TravelTimes {
            walk_minutes: answer_at(answer_times(*walk), i),
            bike_minutes: answer_at(answer_times(*bike), i),
            car_minutes: answer_at(answer_times(*car), i),
        }),
{
    let mut table = TravelTable::new();
    let mut i: usize = 0;
    while i < school_ids.len()
        invariant
            i <= school_ids@.len(),
            table.entries@.len() == i,
            forall|j: int| 0 <= j < i ==> (#[trigger] table.entries@[j]).0 == school_ids@[j],
            forall|j: int| 0 <= j < i ==> (#[trigger] table.entries@[j]).1 == (TravelTimes {
                walk_minutes: answer_at(answer_times(*walk), j),
                bike_minutes: answer_at(answer_times(*bike), j),
                car_minutes: answer_at(answer_times(*car), j),
            }),
        decreases school_ids@.len() - i,
    {
        let times = TravelTimes {
            walk_minutes: pick(walk, i),
            bike_minutes: pick(bike, i),
            car_minutes: pick(car, i),
        };
        table.insert(school_ids[i].clone(), times);
        i = i + 1;
    }
    table
}

/// The routing service's matrix endpoint.
pub const MATRIX_URL: &'static str = "https://valhalla1.openstreetmap.de/sources_to_targets";

/// The profiles the routing service is asked for: on foot, by bicycle, by car.
pub const WALK_COSTING: &'static str = "pedestrian";
pub const BIKE_COSTING: &'static str = "bicycle";
pub const CAR_COSTING: &'static str = "auto";

/// The address of a matrix request sent as a query parameter (the form
/// used when the service refuses the request body): the JSON body as the
/// URI component `json`.
pub fn matrix_get_url(body: &str) -> (r: String)
    ensures
        r@ == MATRIX_URL@ + "?json="@ + crate::hash_router::uri_component_encoded(body@),
{
    let encoded = crate::hash_router::encode_uri_component(body);
    let head = crate::text::concat(MATRIX_URL, "?json=");
    crate::text::concat(head.as_str(), encoded.as_str())
}

/// The table built from the three answers gives each school the times at
/// its own position in each answer, when no two schools share an id.
pub proof fn lemma_combined_times(
    school_ids: Seq<String>,
    walk: Result<Vec<Option<u32>>, String>,
    bike: Result<Vec<Option<u32>>, String>,
    car: Result<Vec<Option<u32>>, String>,
    table: TravelTable,
    i: int,
)
    requires
        0 <= i < school_ids.len(),
        forall|a: int, b: int| 0 <= a < b < school_ids.len() ==> (#[trigger] school_ids[a])@ != (#[trigger] school_ids[b])@,
        table.entries@.len() == school_ids.len(),
        forall|k: int| 0 <= k < school_ids.len() ==> (#[trigger] table.entries@[k]).0 == school_ids[k],
        forall|k: int| 0 <= k < school_ids.len() ==> (#[trigger] table.entries@[k]).1 == (TravelTimes {
            walk_minutes: answer_at(answer_times(walk), k),
            bike_minutes: answer_at(answer_times(bike), k),
            car_minutes: answer_at(answer_times(car), k),
        }),
    ensures
        table_get(table.entries@, school_ids[i]@) == Some(TravelTimes {
            walk_minutes: answer_at(answer_times(walk), i),
            bike_minutes: answer_at(answer_times(bike), i),
            car_minutes: answer_at(answer_times(car), i),
        }),
{
    let e = table.entries@;
    assert forall|j: int| 0 <= j < e.len() && j != i implies (#[trigger] e[j]).0@ != e[i].0@ by {
        assert(e[j].0 == school_ids[j]);
        assert(e[i].0 == school_ids[i]);
        if j < i {
            assert(school_ids[j]@ != school_ids[i]@);
        } else {
            assert(school_ids[i]@ != school_ids[j]@);
        }
    }
    lemma_table_get_unique(e, i);
    assert(e[i].0 == school_ids[i]);
}

} // verus!
