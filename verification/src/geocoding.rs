//! Address suggestions of the geocoding service, as far as the labels shown
//! for them go.
use vstd::prelude::*;

use crate::models::copy_opt_string;
use crate::text::{join, join_with, views};

verus! {

broadcast use vstd::string::group_string_axioms;

/// The address parts of a suggestion.
#[derive(Clone, Debug)]
pub struct PhotonProperties {
    pub name: Option<String>,
    pub street: Option<String>,
    pub housenumber: Option<String>,
    pub postcode: Option<String>,
    pub city: Option<String>,
    pub state: Option<String>,
    pub country: Option<String>,
}

/// An address suggestion (its position is kept by the caller).
#[derive(Clone, Debug)]
pub struct PhotonFeature {
    pub properties: PhotonProperties,
}

/// The parts of an optional value that are present.
pub open spec fn present(o: Option<String>) -> Seq<Seq<char>> {
    match o {
        Some(s) => seq![s@],
        None => Seq::empty(),
    }
}

/// The label of a suggestion: street, house number, postcode and city,
/// those present, joined by `, `; the name (or nothing) when none is.
pub open spec fn label_of(p: PhotonProperties) -> Seq<char> {
    let parts = present(p.street) + present(p.housenumber) + present(p.postcode) + present(p.city);
    if parts.len() == 0 {
        match p.name {
            Some(n) => n@,
            None => Seq::empty(),
        }
    } else {
        join_with(parts, ", "@)
    }
}

fn push_present(parts: &mut Vec<String>, o: &Option<String>)
    ensures
        views(final(parts)@) == views(old(parts)@) + present(*o),
{
    match o {
        Some(s) => parts.push(s.clone()),
        None => {},
    }
    assert(views(parts@) =~= views(old(parts)@) + present(*o));
}

impl PhotonFeature {
    /// Build a display label for the dropdown.
    /// Joins street, housenumber, postcode, city. Falls back to name if all are None.
    pub fn display_label(&self) -> (r: String)
        ensures
            r@ == label_of(self.properties),
    {
        let mut parts: Vec<String> = Vec::new();
        assert(views(parts@) =~= Seq::<Seq<char>>::empty());
        push_present(&mut parts, &self.properties.street);
        push_present(&mut parts, &self.properties.housenumber);
        push_present(&mut parts, &self.properties.postcode);
        push_present(&mut parts, &self.properties.city);
        if parts.len() == 0 {
            match copy_opt_string(&self.properties.name) {
                Some(n) => n,
                None => String::new(),
            }
        } else {
            join(parts.as_slice(), ", ")
        }
    }
}

/// The geocoder's address for a search: the query as a URI component,
/// results biased toward the centre of Berlin, at most five, in German.
pub open spec fn geocode_url_of(query: Seq<char>) -> Seq<char> {
    "https://photon.komoot.io/api/?q="@ + crate::hash_router::uri_component_encoded(query)
        + "&lat=52.52&lon=13.405&limit=5&lang=de"@
}

/// The address to ask the geocoder for suggestions for a query.
pub fn geocode_url(query: &str) -> (r: String)
    ensures
        r@ == geocode_url_of(query@),
{
    let encoded = crate::hash_router::encode_uri_component(query);
    let head = crate::text::concat("https://photon.komoot.io/api/?q=", encoded.as_str());
    crate::text::concat(head.as_str(), "&lat=52.52&lon=13.405&limit=5&lang=de")
}

/// The label lists the parts present among street, house number, postcode
/// and city, in that order, with `, ` between them: with all four present
/// it is `street, housenumber, postcode, city`, and a present house number
/// comes right after the street. With none of them present it is the name,
/// or nothing.
pub proof fn lemma_label_parts(p: PhotonProperties)
    ensures
        ({
            let parts = present(p.street) + present(p.housenumber) + present(p.postcode) + present(p.city);
            parts.len() > 0 ==> label_of(p) == join_with(parts, ", "@)
        }),
        (p.street matches Some(st) && p.housenumber matches Some(hn) && p.postcode matches Some(pc)
            && p.city matches Some(c)) ==> label_of(p) == p.street->0@ + ", "@ + p.housenumber->0@ + ", "@
            + p.postcode->0@ + ", "@ + p.city->0@,
        (p.street matches Some(st) && p.housenumber matches Some(hn)) ==> label_of(p).take(
            (p.street->0@.len() + 2 + p.housenumber->0@.len()) as int,
        ) == p.street->0@ + ", "@ + p.housenumber->0@,
        (p.street is None && p.housenumber is None && p.postcode is None && p.city is None) ==> label_of(p) == match p.name {
            Some(n) => n@,
            None => Seq::<char>::empty(),
        },
{
    reveal_strlit(", ");
    let parts = present(p.street) + present(p.housenumber) + present(p.postcode) + present(p.city);
    if p.street is Some && p.housenumber is Some {
        let st = p.street->0@;
        let hn = p.housenumber->0@;
        let rest = present(p.postcode) + present(p.city);
        assert(parts =~= seq![st, hn] + rest);
        lemma_join_prefix(seq![st, hn], rest, ", "@);
        assert(seq![st, hn].drop_last() =~= seq![st]);
        assert(join_with(seq![st, hn], ", "@) == join_with(seq![st], ", "@) + ", "@ + hn);
        assert(join_with(seq![st], ", "@) == st);
        let j = join_with(seq![st, hn], ", "@);
        assert(j.len() == st.len() + 2 + hn.len());
        assert(join_with(parts, ", "@).take(j.len() as int) =~= j);
        if p.postcode is Some && p.city is Some {
            let pc = p.postcode->0@;
            let c = p.city->0@;
            assert(parts =~= seq![st, hn, pc, c]);
            assert(seq![st, hn, pc, c].drop_last() =~= seq![st, hn, pc]);
            assert(seq![st, hn, pc].drop_last() =~= seq![st, hn]);
            assert(join_with(seq![st, hn, pc], ", "@) == j + ", "@ + pc);
            assert(join_with(seq![st, hn, pc, c], ", "@) == join_with(seq![st, hn, pc], ", "@) + ", "@ + c);
        }
    }
    if p.street is None && p.housenumber is None && p.postcode is None && p.city is None {
        assert(parts.len() == 0);
    }
}

/// A join of `a + b` with `a` not empty starts with the join of `a`.
proof fn lemma_join_prefix(a: Seq<Seq<char>>, b: Seq<Seq<char>>, sep: Seq<char>)
    requires
        a.len() > 0,
    ensures
        join_with(a + b, sep).take(join_with(a, sep).len() as int) == join_with(a, sep),
        join_with(a + b, sep).len() >= join_with(a, sep).len(),
    decreases b.len(),
{
    if b.len() == 0 {
        assert(a + b =~= a);
        assert(join_with(a, sep).take(join_with(a, sep).len() as int) =~= join_with(a, sep));
    } else {
        lemma_join_prefix(a, b.drop_last(), sep);
        assert((a + b).drop_last() =~= a + b.drop_last());
        assert((a + b).last() == b.last());
        let j0 = join_with(a + b.drop_last(), sep);
        let ja = join_with(a, sep);
        assert((a + b).len() > 1);
        assert(join_with(a + b, sep) == j0 + sep + b.last());
        assert((j0 + sep + b.last()).take(ja.len() as int) =~= j0.take(ja.len() as int));
    }
}

} // verus!
