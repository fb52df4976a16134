//! The listing's filter state read back from the query string it is
//! written to.
use vstd::prelude::*;

use crate::hash_router::{key_value, pair_get, raw_pairs, read_pairs, read_value};
use crate::listing::{csv_values, from_param, list_param, query_params, sort_param, tristate_of, tristate_param, view_param};
use crate::models::{lemma_sort_query_roundtrip, sort_field_of, sort_query_of, SortField};
use crate::text::{join_with, lemma_split_join, split_on};

verus! {

/// No character of `a + b` is `c` when none of `a` or `b` is.
proof fn lemma_concat_free(a: Seq<char>, b: Seq<char>, c: char)
    requires
        !a.contains(c),
        !b.contains(c),
    ensures
        !(a + b).contains(c),
{
    if (a + b).contains(c) {
        let i = choose|i: int| 0 <= i < (a + b).len() && (a + b)[i] == c;
        if i < a.len() {
            assert(a[i] == c);
        } else {
            assert(b[i - a.len()] == c);
        }
    }
}

/// A join is free of `c` when its parts and the separator are.
proof fn lemma_join_free(parts: Seq<Seq<char>>, sep: Seq<char>, c: char)
    requires
        forall|i: int| 0 <= i < parts.len() ==> !(#[trigger] parts[i]).contains(c),
        !sep.contains(c),
    ensures
        !join_with(parts, sep).contains(c),
    decreases parts.len(),
{
    if parts.len() == 1 {
        assert(!parts[0].contains(c));
    } else if parts.len() > 1 {
        let init = parts.drop_last();
        assert forall|i: int| 0 <= i < init.len() implies !(#[trigger] init[i]).contains(c) by {
            assert(init[i] == parts[i]);
        }
        lemma_join_free(init, sep, c);
        assert(!parts.last().contains(c)) by {
            assert(parts[parts.len() - 1] == parts.last());
        }
        lemma_concat_free(join_with(init, sep), sep, c);
        lemma_concat_free(join_with(init, sep) + sep, parts.last(), c);
    } else {
        assert(join_with(parts, sep) =~= Seq::<char>::empty());
    }
}

/// The pairs of the pieces `a + b` are those of `a`, then those of `b`.
proof fn lemma_raw_pairs_append(a: Seq<Seq<char>>, b: Seq<Seq<char>>)
    ensures
        raw_pairs(a + b) == raw_pairs(a) + raw_pairs(b),
    decreases b.len(),
{
    if b.len() == 0 {
        assert(a + b =~= a);
        assert(raw_pairs(a) + raw_pairs(b) =~= raw_pairs(a));
    } else {
        lemma_raw_pairs_append(a, b.drop_last());
        assert((a + b).drop_last() =~= a + b.drop_last());
        assert((a + b).last() == b.last());
        let p = b.last();
        if !(p.len() == 0 || key_value(p).0.len() == 0) {
            assert(raw_pairs(a) + raw_pairs(b.drop_last()).push(key_value(p)) =~= (raw_pairs(a)
                + raw_pairs(b.drop_last())).push(key_value(p)));
        }
    }
}

/// A lookup in `a + b` finds the value in `b` first, then in `a`.
proof fn lemma_pair_get_append(a: Seq<(Seq<char>, Seq<char>)>, b: Seq<(Seq<char>, Seq<char>)>, key: Seq<char>)
    ensures
        pair_get(a + b, key) == match pair_get(b, key) {
            Some(v) => Some(v),
            None => pair_get(a, key),
        },
    decreases b.len(),
{
    if b.len() == 0 {
        assert(a + b =~= a);
    } else {
        lemma_pair_get_append(a, b.drop_last(), key);
        assert((a + b).drop_last() =~= a + b.drop_last());
        assert((a + b).last() == b.last());
    }
}

/// The piece `key=value` reads as the pair `(key, value)` when the key is
/// not empty and has no `=`.
proof fn lemma_one_param(key: Seq<char>, value: Seq<char>)
    requires
        key.len() > 0,
        !key.contains('='),
    ensures
        raw_pairs(seq![key + seq!['='] + value]) == seq![(key, value)],
{
    let s = key + seq!['='] + value;
    let pat = seq!['='];
    crate::text::lemma_find_from(s, pat, 0);
    assert(crate::text::occurs_at(s, pat, key.len() as int)) by {
        assert(s.subrange(key.len() as int, key.len() as int + 1) =~= pat);
    }
    let k = crate::text::find_from(s, pat, 0)->0;
    if k < key.len() {
        assert(s.subrange(k, k + 1)[0] == s[k]);
        assert(key[k] == '=');
    }
    assert(s.take(key.len() as int) =~= key);
    assert(s.skip(key.len() as int + 1) =~= value);
    assert(key_value(s) == (key, value));
    assert(seq![s].drop_last() =~= Seq::<Seq<char>>::empty());
    assert(seq![s].last() == s);
    assert(raw_pairs(Seq::<Seq<char>>::empty()) =~= Seq::<(Seq<char>, Seq<char>)>::empty());
    assert(raw_pairs(seq![s]) =~= seq![(key, value)]);
}

/// No piece of `pieces` holds the character `c`.
pub open spec fn pieces_free_of(pieces: Seq<Seq<char>>, c: char) -> bool {
    forall|i: int| 0 <= i < pieces.len() ==> !(#[trigger] pieces[i]).contains(c)
}

proof fn lemma_pieces_free_append(a: Seq<Seq<char>>, b: Seq<Seq<char>>, c: char)
    requires
        pieces_free_of(a, c),
        pieces_free_of(b, c),
    ensures
        pieces_free_of(a + b, c),
{
    assert forall|i: int| 0 <= i < (a + b).len() implies !(#[trigger] (a + b)[i]).contains(c) by {
        if i < a.len() {
            assert((a + b)[i] == a[i]);
        } else {
            assert((a + b)[i] == b[i - a.len()]);
        }
    }
}

/// A lookup in a single pair.
proof fn lemma_pair_get_single(k: Seq<char>, v: Seq<char>, key: Seq<char>)
    ensures
        pair_get(seq![(k, v)], key) == (if k == key { Some(v) } else { None::<Seq<char>> }),
{
    assert(seq![(k, v)].drop_last() =~= Seq::<(Seq<char>, Seq<char>)>::empty());
    assert(pair_get(Seq::<(Seq<char>, Seq<char>)>::empty(), key) is None);
    assert(seq![(k, v)].last() == (k, v));
}

/// The value a parameter reads as, if present.
pub open spec fn read_opt(value: Option<Seq<char>>) -> Option<Seq<char>> {
    match value {
        Some(v) => Some(read_value(v)),
        None => None,
    }
}

/// A lookup in the read pairs is the read value of the lookup in the raw
/// pairs.
proof fn lemma_read_lookup(pairs: Seq<(Seq<char>, Seq<char>)>, key: Seq<char>)
    ensures
        pair_get(pairs.map_values(|p: (Seq<char>, Seq<char>)| (p.0, read_value(p.1))), key) == read_opt(
            pair_get(pairs, key),
        ),
    decreases pairs.len(),
{
    let f = |p: (Seq<char>, Seq<char>)| (p.0, read_value(p.1));
    if pairs.len() > 0 {
        lemma_read_lookup(pairs.drop_last(), key);
        assert(pairs.map_values(f).drop_last() =~= pairs.drop_last().map_values(f));
    }
}

/// A text without `%` reads as itself.
proof fn lemma_read_plain(v: Seq<char>)
    requires
        !v.contains('%'),
    ensures
        read_value(v) == v,
{
}

/// A value of a list filter that reads back as itself: not empty, and free
/// of the separators `,` and `&` and of `%`.
pub open spec fn plain_list_value(v: Seq<char>) -> bool {
    v.len() > 0 && !v.contains(',') && !v.contains('&') && !v.contains('%')
}

/// Every value of the list reads back as itself.
pub open spec fn plain_list(list: Seq<Seq<char>>) -> bool {
    forall|i: int| 0 <= i < list.len() ==> plain_list_value(#[trigger] list[i])
}

/// No value of the list holds `&`, so that none of them starts a parameter
/// of its own.
pub open spec fn amp_free(list: Seq<Seq<char>>) -> bool {
    forall|i: int| 0 <= i < list.len() ==> !(#[trigger] list[i]).contains('&')
}

/// A coordinate text that reads back as itself: free of `,`, `&` and `%`.
pub open spec fn plain_coordinate(v: Seq<char>) -> bool {
    !v.contains(',') && !v.contains('&') && !v.contains('%')
}

/// What a list parameter reads back as.
proof fn lemma_list_pairs(key: Seq<char>, list: Seq<Seq<char>>)
    requires
        key.len() > 0,
        !key.contains('='),
        !key.contains('&'),
        amp_free(list),
    ensures
        pieces_free_of(list_param(key, list), '&'),
        keyed(raw_pairs(list_param(key, list)), key),
        plain_list(list) ==> csv_values(read_opt(pair_get(raw_pairs(list_param(key, list)), key))) == list,
{
    reveal_strlit("=");
    reveal_strlit(",");
    if list.len() > 0 {
        let j = join_with(list, ","@);
        assert(key + "="@ + j =~= key + seq!['='] + j);
        lemma_one_param(key, j);
        lemma_join_free(list, ","@, '&');
        lemma_concat_free(key, "="@, '&');
        lemma_concat_free(key + "="@, j, '&');
        lemma_pair_get_single(key, j, key);
        if plain_list(list) {
            assert(plain_list_value(list[list.len() - 1]));
            assert(j.len() > 0);
            assert forall|i: int| 0 <= i < list.len() implies !(#[trigger] list[i]).contains(',') by {
                assert(plain_list_value(list[i]));
            }
            assert forall|i: int| 0 <= i < list.len() implies !(#[trigger] list[i]).contains('%') by {
                assert(plain_list_value(list[i]));
            }
            lemma_join_free(list, ","@, '%');
            lemma_read_plain(j);
            assert(","@ =~= seq![',']);
            lemma_split_join(list, ',');
        }
    } else {
        assert(list =~= Seq::<Seq<char>>::empty());
    }
}

/// What a tri-state parameter reads back as.
proof fn lemma_tristate_pairs(key: Seq<char>, flag: Option<bool>)
    requires
        key.len() > 0,
        !key.contains('='),
        !key.contains('&'),
    ensures
        pieces_free_of(tristate_param(key, flag), '&'),
        keyed(raw_pairs(tristate_param(key, flag)), key),
        tristate_of(read_opt(pair_get(raw_pairs(tristate_param(key, flag)), key))) == flag,
{
    reveal_strlit("=ja");
    reveal_strlit("ja");
    reveal_strlit("=nein");
    reveal_strlit("nein");
    match flag {
        Some(true) => {
            assert(key + "=ja"@ =~= key + seq!['='] + "ja"@);
            lemma_one_param(key, "ja"@);
            lemma_concat_free(key, "=ja"@, '&');
            lemma_pair_get_single(key, "ja"@, key);
            assert(!"ja"@.contains('%'));
            lemma_read_plain("ja"@);
        },
        Some(false) => {
            assert(key + "=nein"@ =~= key + seq!['='] + "nein"@);
            lemma_one_param(key, "nein"@);
            lemma_concat_free(key, "=nein"@, '&');
            lemma_pair_get_single(key, "nein"@, key);
            assert(!"nein"@.contains('%'));
            lemma_read_plain("nein"@);
            assert("nein"@ != "ja"@);
        },
        None => {},
    }
}

/// At most one pair, and that one under `key`.
pub open spec fn keyed(r: Seq<(Seq<char>, Seq<char>)>, key: Seq<char>) -> bool {
    r.len() == 0 || (r.len() == 1 && r[0].0 == key)
}

proof fn lemma_pair_get_keyed(r: Seq<(Seq<char>, Seq<char>)>, key: Seq<char>, k: Seq<char>)
    requires
        keyed(r, key),
    ensures
        pair_get(r, k) == (if r.len() == 1 && key == k { Some(r[0].1) } else { None::<Seq<char>> }),
{
    if r.len() == 1 {
        assert(r.drop_last() =~= Seq::<(Seq<char>, Seq<char>)>::empty());
        assert(pair_get(Seq::<(Seq<char>, Seq<char>)>::empty(), k) is None);
        assert(r.last() == r[0]);
    }
}

/// In the pairs of the eight filter parameters, in order, each key finds
/// its own parameter.
proof fn lemma_lookups(
    r1: Seq<(Seq<char>, Seq<char>)>,
    r2: Seq<(Seq<char>, Seq<char>)>,
    r3: Seq<(Seq<char>, Seq<char>)>,
    r4: Seq<(Seq<char>, Seq<char>)>,
    r5: Seq<(Seq<char>, Seq<char>)>,
    r6: Seq<(Seq<char>, Seq<char>)>,
    r7: Seq<(Seq<char>, Seq<char>)>,
    r8: Seq<(Seq<char>, Seq<char>)>,
)
    requires
        keyed(r1, "district"@),
        keyed(r2, "profile"@),
        keyed(r3, "grundstaendig"@),
        keyed(r4, "language"@),
        keyed(r5, "ganztag"@),
        keyed(r6, "sort"@),
        keyed(r7, "view"@),
        keyed(r8, "from"@),
    ensures
        pair_get(r1 + r2 + r3 + r4 + r5 + r6 + r7 + r8, "district"@) == pair_get(r1, "district"@),
        pair_get(r1 + r2 + r3 + r4 + r5 + r6 + r7 + r8, "profile"@) == pair_get(r2, "profile"@),
        pair_get(r1 + r2 + r3 + r4 + r5 + r6 + r7 + r8, "grundstaendig"@) == pair_get(r3, "grundstaendig"@),
        pair_get(r1 + r2 + r3 + r4 + r5 + r6 + r7 + r8, "language"@) == pair_get(r4, "language"@),
        pair_get(r1 + r2 + r3 + r4 + r5 + r6 + r7 + r8, "ganztag"@) == pair_get(r5, "ganztag"@),
        pair_get(r1 + r2 + r3 + r4 + r5 + r6 + r7 + r8, "sort"@) == pair_get(r6, "sort"@),
        pair_get(r1 + r2 + r3 + r4 + r5 + r6 + r7 + r8, "view"@) == pair_get(r7, "view"@),
        pair_get(r1 + r2 + r3 + r4 + r5 + r6 + r7 + r8, "from"@) == pair_get(r8, "from"@),
{
    lemma_keys();
    reveal_strlit("district");
    reveal_strlit("profile");
    reveal_strlit("grundstaendig");
    reveal_strlit("language");
    reveal_strlit("ganztag");
    reveal_strlit("sort");
    reveal_strlit("view");
    reveal_strlit("from");
    let t2 = r1 + r2;
    let t3 = t2 + r3;
    let t4 = t3 + r4;
    let t5 = t4 + r5;
    let t6 = t5 + r6;
    let t7 = t6 + r7;
    let t8 = t7 + r8;
    assert forall|k: Seq<char>| #[trigger] pair_get(r1, k) == (if r1.len() == 1 && "district"@ == k { Some(r1[0].1) } else { None::<Seq<char>> }) by {
        lemma_pair_get_keyed(r1, "district"@, k);
    }
    assert forall|k: Seq<char>| #[trigger] pair_get(r2, k) == (if r2.len() == 1 && "profile"@ == k { Some(r2[0].1) } else { None::<Seq<char>> }) by {
        lemma_pair_get_keyed(r2, "profile"@, k);
    }
    assert forall|k: Seq<char>| #[trigger] pair_get(r3, k) == (if r3.len() == 1 && "grundstaendig"@ == k { Some(r3[0].1) } else { None::<Seq<char>> }) by {
        lemma_pair_get_keyed(r3, "grundstaendig"@, k);
    }
    assert forall|k: Seq<char>| #[trigger] pair_get(r4, k) == (if r4.len() == 1 && "language"@ == k { Some(r4[0].1) } else { None::<Seq<char>> }) by {
        lemma_pair_get_keyed(r4, "language"@, k);
    }
    assert forall|k: Seq<char>| #[trigger] pair_get(r5, k) == (if r5.len() == 1 && "ganztag"@ == k { Some(r5[0].1) } else { None::<Seq<char>> }) by {
        lemma_pair_get_keyed(r5, "ganztag"@, k);
    }
    assert forall|k: Seq<char>| #[trigger] pair_get(r6, k) == (if r6.len() == 1 && "sort"@ == k { Some(r6[0].1) } else { None::<Seq<char>> }) by {
        lemma_pair_get_keyed(r6, "sort"@, k);
    }
    assert forall|k: Seq<char>| #[trigger] pair_get(r7, k) == (if r7.len() == 1 && "view"@ == k { Some(r7[0].1) } else { None::<Seq<char>> }) by {
        lemma_pair_get_keyed(r7, "view"@, k);
    }
    assert forall|k: Seq<char>| #[trigger] pair_get(r8, k) == (if r8.len() == 1 && "from"@ == k { Some(r8[0].1) } else { None::<Seq<char>> }) by {
        lemma_pair_get_keyed(r8, "from"@, k);
    }
    assert forall|k: Seq<char>| #[trigger] pair_get(t2, k) == (match pair_get(r2, k) { Some(v) => Some(v), None => pair_get(r1, k) }) by {
        lemma_pair_get_append(r1, r2, k);
    }
    assert forall|k: Seq<char>| #[trigger] pair_get(t3, k) == (match pair_get(r3, k) { Some(v) => Some(v), None => pair_get(t2, k) }) by {
        lemma_pair_get_append(t2, r3, k);
    }
    assert forall|k: Seq<char>| #[trigger] pair_get(t4, k) == (match pair_get(r4, k) { Some(v) => Some(v), None => pair_get(t3, k) }) by {
        lemma_pair_get_append(t3, r4, k);
    }
    assert forall|k: Seq<char>| #[trigger] pair_get(t5, k) == (match pair_get(r5, k) { Some(v) => Some(v), None => pair_get(t4, k) }) by {
        lemma_pair_get_append(t4, r5, k);
    }
    assert forall|k: Seq<char>| #[trigger] pair_get(t6, k) == (match pair_get(r6, k) { Some(v) => Some(v), None => pair_get(t5, k) }) by {
        lemma_pair_get_append(t5, r6, k);
    }
    assert forall|k: Seq<char>| #[trigger] pair_get(t7, k) == (match pair_get(r7, k) { Some(v) => Some(v), None => pair_get(t6, k) }) by {
        lemma_pair_get_append(t6, r7, k);
    }
    assert forall|k: Seq<char>| #[trigger] pair_get(t8, k) == (match pair_get(r8, k) { Some(v) => Some(v), None => pair_get(t7, k) }) by {
        lemma_pair_get_append(t7, r8, k);
    }
}

/// The keys of the filter parameters: not empty, free of `=` and `&`, and
/// pairwise different.
proof fn lemma_keys()
    ensures
        "district"@.len() > 0 && !"district"@.contains('=') && !"district"@.contains('&'),
        "profile"@.len() > 0 && !"profile"@.contains('=') && !"profile"@.contains('&'),
        "grundstaendig"@.len() > 0 && !"grundstaendig"@.contains('=') && !"grundstaendig"@.contains('&'),
        "language"@.len() > 0 && !"language"@.contains('=') && !"language"@.contains('&'),
        "ganztag"@.len() > 0 && !"ganztag"@.contains('=') && !"ganztag"@.contains('&'),
        "sort"@.len() > 0 && !"sort"@.contains('=') && !"sort"@.contains('&'),
        "view"@.len() > 0 && !"view"@.contains('=') && !"view"@.contains('&'),
        "from"@.len() > 0 && !"from"@.contains('=') && !"from"@.contains('&'),
        "district"@ != "language"@,
        "profile"@ != "ganztag"@,
        "sort"@ != "view"@,
        "sort"@ != "from"@,
        "view"@ != "from"@,
{
    reveal_strlit("district");
    reveal_strlit("profile");
    reveal_strlit("grundstaendig");
    reveal_strlit("language");
    reveal_strlit("ganztag");
    reveal_strlit("sort");
    reveal_strlit("view");
    reveal_strlit("from");
    assert("district"@[0] != "language"@[0]);
    assert("profile"@[0] != "ganztag"@[0]);
    assert("sort"@[0] != "view"@[0]);
    assert("sort"@[0] != "from"@[0]);
    assert("view"@[0] != "from"@[0]);
}

/// Reading the query string written for a filter state, as it is parsed
/// (split at `&` and `=`, values decoded), gives that state back, as long
/// as no list value or coordinate holds `&`: both tri-state filters; the
/// sort field (the default order, by student count, is not written; by
/// name is written as `name`, which reads back as the default order, so an
/// order by name does not survive); the map view; the address parameter,
/// whose two coordinates come back when they are free of `,` and `%`; and
/// each list of districts, profiles and languages whose values are not
/// empty and free of `,` and `%`.
pub proof fn lemma_query_roundtrip(
    districts: Seq<Seq<char>>,
    profiles: Seq<Seq<char>>,
    grundstaendig: Option<bool>,
    languages: Seq<Seq<char>>,
    ganztag: Option<bool>,
    sort: SortField,
    view: Seq<char>,
    from_coords: Option<(Seq<char>, Seq<char>)>,
)
    requires
        amp_free(districts),
        amp_free(profiles),
        amp_free(languages),
        from_coords matches Some((lat, lng)) ==> !lat.contains('&') && !lng.contains('&'),
    ensures
        ({
            let qs = join_with(
                query_params(districts, profiles, grundstaendig, languages, ganztag, sort, view, from_coords),
                "&"@,
            );
            let read = read_pairs(qs);
            &&& plain_list(districts) ==> csv_values(pair_get(read, "district"@)) == districts
            &&& plain_list(profiles) ==> csv_values(pair_get(read, "profile"@)) == profiles
            &&& tristate_of(pair_get(read, "grundstaendig"@)) == grundstaendig
            &&& plain_list(languages) ==> csv_values(pair_get(read, "language"@)) == languages
            &&& tristate_of(pair_get(read, "ganztag"@)) == ganztag
            &&& match pair_get(read, "sort"@) {
                Some(q) => sort_field_of(q),
                None => SortField::StudentCount,
            } == (if sort == SortField::Name { SortField::StudentCount } else { sort })
            &&& pair_get(read, "view"@) == (if view == "map"@ { Some("map"@) } else { None })
            &&& match from_coords {
                Some((lat, lng)) => pair_get(read, "from"@) is Some && (plain_coordinate(lat) && plain_coordinate(lng)
                    ==> split_on(pair_get(read, "from"@)->0, ',') == seq![lat, lng]),
                None => pair_get(read, "from"@) is None,
            }
        }),
{
    lemma_keys();
    let b1 = list_param("district"@, districts);
    let b2 = list_param("profile"@, profiles);
    let b3 = tristate_param("grundstaendig"@, grundstaendig);
    let b4 = list_param("language"@, languages);
    let b5 = tristate_param("ganztag"@, ganztag);
    let b6 = sort_param(sort);
    let b7 = view_param(view);
    let b8 = from_param(from_coords);
    let params = query_params(districts, profiles, grundstaendig, languages, ganztag, sort, view, from_coords);
    assert(params == b1 + b2 + b3 + b4 + b5 + b6 + b7 + b8);
    lemma_list_pairs("district"@, districts);
    lemma_list_pairs("profile"@, profiles);
    lemma_tristate_pairs("grundstaendig"@, grundstaendig);
    lemma_list_pairs("language"@, languages);
    lemma_tristate_pairs("ganztag"@, ganztag);
    lemma_sort_pairs(sort);
    lemma_view_pairs(view);
    lemma_from_pairs(from_coords);

    // The pieces between `&` are the parameters themselves.
    lemma_pieces_free_append(b1, b2, '&');
    lemma_pieces_free_append(b1 + b2, b3, '&');
    lemma_pieces_free_append(b1 + b2 + b3, b4, '&');
    lemma_pieces_free_append(b1 + b2 + b3 + b4, b5, '&');
    lemma_pieces_free_append(b1 + b2 + b3 + b4 + b5, b6, '&');
    lemma_pieces_free_append(b1 + b2 + b3 + b4 + b5 + b6, b7, '&');
    lemma_pieces_free_append(b1 + b2 + b3 + b4 + b5 + b6 + b7, b8, '&');
    lemma_split_params(params);
    let qs = join_with(params, "&"@);
    let pairs = raw_pairs(split_on(qs, '&'));

    // The pairs, block by block.
    lemma_raw_pairs_append(b1, b2);
    lemma_raw_pairs_append(b1 + b2, b3);
    lemma_raw_pairs_append(b1 + b2 + b3, b4);
    lemma_raw_pairs_append(b1 + b2 + b3 + b4, b5);
    lemma_raw_pairs_append(b1 + b2 + b3 + b4 + b5, b6);
    lemma_raw_pairs_append(b1 + b2 + b3 + b4 + b5 + b6, b7);
    lemma_raw_pairs_append(b1 + b2 + b3 + b4 + b5 + b6 + b7, b8);
    let r1 = raw_pairs(b1);
    let r2 = raw_pairs(b2);
    let r3 = raw_pairs(b3);
    let r4 = raw_pairs(b4);
    let r5 = raw_pairs(b5);
    let r6 = raw_pairs(b6);
    let r7 = raw_pairs(b7);
    let r8 = raw_pairs(b8);
    assert(pairs == r1 + r2 + r3 + r4 + r5 + r6 + r7 + r8);
    lemma_lookups(r1, r2, r3, r4, r5, r6, r7, r8);

    // Reading decodes the values.
    lemma_read_lookup(pairs, "district"@);
    lemma_read_lookup(pairs, "profile"@);
    lemma_read_lookup(pairs, "grundstaendig"@);
    lemma_read_lookup(pairs, "language"@);
    lemma_read_lookup(pairs, "ganztag"@);
    lemma_read_lookup(pairs, "sort"@);
    lemma_read_lookup(pairs, "view"@);
    lemma_read_lookup(pairs, "from"@);
}

/// The pieces of a join of `&`-free parameters at `&` read as the
/// parameters themselves.
proof fn lemma_split_params(params: Seq<Seq<char>>)
    requires
        pieces_free_of(params, '&'),
    ensures
        raw_pairs(split_on(join_with(params, "&"@), '&')) == raw_pairs(params),
{
    reveal_strlit("&");
    let qs = join_with(params, "&"@);
    assert("&"@ =~= seq!['&']);
    if params.len() >= 1 {
        lemma_split_join(params, '&');
    } else {
        assert(qs =~= Seq::<char>::empty());
        assert(split_on(qs, '&') =~= seq![Seq::<char>::empty()]);
        assert(seq![Seq::<char>::empty()].drop_last() =~= Seq::<Seq<char>>::empty());
        assert(params =~= Seq::<Seq<char>>::empty());
        assert(raw_pairs(Seq::<Seq<char>>::empty()) =~= Seq::<(Seq<char>, Seq<char>)>::empty());
        assert(raw_pairs(split_on(qs, '&')) =~= raw_pairs(params));
    }
}

/// What the sort parameter reads back as.
proof fn lemma_sort_pairs(sort: SortField)
    ensures
        pieces_free_of(sort_param(sort), '&'),
        keyed(raw_pairs(sort_param(sort)), "sort"@),
        match read_opt(pair_get(raw_pairs(sort_param(sort)), "sort"@)) {
            Some(q) => sort_field_of(q),
            None => SortField::StudentCount,
        } == (if sort == SortField::Name { SortField::StudentCount } else { sort }),
{
    lemma_keys();
    reveal_strlit("sort");
    reveal_strlit("sort=");
    if sort != SortField::StudentCount {
        let q = sort_query_of(sort);
        reveal_strlit("name");
        reveal_strlit("district");
        reveal_strlit("students");
        reveal_strlit("travel_walk");
        reveal_strlit("travel_bike");
        reveal_strlit("travel_car");
        assert(!q.contains('&'));
        assert(!q.contains('%'));
        lemma_read_plain(q);
        assert("sort="@ + q =~= "sort"@ + seq!['='] + q);
        lemma_one_param("sort"@, q);
        lemma_concat_free("sort="@, q, '&');
        lemma_sort_query_roundtrip(sort);
        lemma_pair_get_single("sort"@, q, "sort"@);
    }
}

/// What the view parameter reads back as.
proof fn lemma_view_pairs(view: Seq<char>)
    ensures
        pieces_free_of(view_param(view), '&'),
        keyed(raw_pairs(view_param(view)), "view"@),
        read_opt(pair_get(raw_pairs(view_param(view)), "view"@)) == (if view == "map"@ { Some("map"@) } else { None }),
{
    lemma_keys();
    reveal_strlit("view");
    reveal_strlit("view=map");
    reveal_strlit("map");
    if view == "map"@ {
        assert("view=map"@ =~= "view"@ + seq!['='] + "map"@);
        lemma_one_param("view"@, "map"@);
        lemma_pair_get_single("view"@, "map"@, "view"@);
        assert(!"map"@.contains('%'));
        lemma_read_plain("map"@);
    }
}

/// What the address parameter reads back as.
proof fn lemma_from_pairs(from_coords: Option<(Seq<char>, Seq<char>)>)
    requires
        from_coords matches Some((lat, lng)) ==> !lat.contains('&') && !lng.contains('&'),
    ensures
        pieces_free_of(from_param(from_coords), '&'),
        keyed(raw_pairs(from_param(from_coords)), "from"@),
        match from_coords {
            Some((lat, lng)) => read_opt(pair_get(raw_pairs(from_param(from_coords)), "from"@)) is Some && (
            plain_coordinate(lat) && plain_coordinate(lng) ==> split_on(
                read_opt(pair_get(raw_pairs(from_param(from_coords)), "from"@))->0,
                ',',
            ) == seq![lat, lng]),
            None => pair_get(raw_pairs(from_param(from_coords)), "from"@) is None,
        },
{
    lemma_keys();
    reveal_strlit("from");
    reveal_strlit("from=");
    reveal_strlit(",");
    match from_coords {
        Some((lat, lng)) => {
            let v = lat + ","@ + lng;
            assert("from="@ + lat + ","@ + lng =~= "from"@ + seq!['='] + v);
            lemma_one_param("from"@, v);
            lemma_concat_free("from="@, lat, '&');
            lemma_concat_free("from="@ + lat, ","@, '&');
            lemma_concat_free("from="@ + lat + ","@, lng, '&');
            lemma_pair_get_single("from"@, v, "from"@);
            if plain_coordinate(lat) && plain_coordinate(lng) {
                lemma_concat_free(lat, ","@, '%');
                lemma_concat_free(lat + ","@, lng, '%');
                lemma_read_plain(v);
                assert(join_with(seq![lat, lng], seq![',']) =~= v) by {
                    assert(seq![lat, lng].drop_last() =~= seq![lat]);
                    assert(join_with(seq![lat], seq![',']) == lat);
                    assert(","@ =~= seq![',']);
                }
                lemma_split_join(seq![lat, lng], ',');
            }
        },
        None => {},
    }
}

} // verus!
