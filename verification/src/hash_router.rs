//! Hash-based locations: `#/path?key=value&key2=value2`.
use vstd::prelude::*;

use crate::text::{occurs_at, chars_of, concat, find, first_occurrence, owned, split_char, split_on, string_of, views};

verus! {

broadcast use vstd::string::group_string_axioms;

/// Query parameters keyed by name. Entries are kept in order; a lookup
/// finds the latest entry for a key.
#[derive(Clone, Debug)]
pub struct QueryMap {
    pub entries: Vec<(String, String)>,
}

/// The value of the latest entry for `key`, if any.
pub open spec fn query_get(entries: Seq<(String, String)>, key: Seq<char>) -> Option<Seq<char>>
    decreases entries.len(),
{
    if entries.len() == 0 {
        None
    } else if entries.last().0@ == key {
        Some(entries.last().1@)
    } else {
        query_get(entries.drop_last(), key)
    }
}

/// Two query maps give the same value for every key.
pub open spec fn same_queries(a: Seq<(String, String)>, b: Seq<(String, String)>) -> bool {
    forall|k: Seq<char>| query_get(a, k) == query_get(b, k)
}

proof fn lemma_query_get_some(entries: Seq<(String, String)>, key: Seq<char>)
    ensures
        query_get(entries, key) is Some <==> exists|i: int| 0 <= i < entries.len() && entries[i].0@ == key,
    decreases entries.len(),
{
    if entries.len() > 0 {
        lemma_query_get_some(entries.drop_last(), key);
        if exists|i: int| 0 <= i < entries.len() && entries[i].0@ == key {
            let i = choose|i: int| 0 <= i < entries.len() && entries[i].0@ == key;
            if i < entries.len() - 1 {
                assert(entries.drop_last()[i] == entries[i]);
            }
        }
        if exists|i: int| 0 <= i < entries.drop_last().len() && entries.drop_last()[i].0@ == key {
            let i = choose|i: int| 0 <= i < entries.drop_last().len() && entries.drop_last()[i].0@ == key;
            assert(entries[i] == entries.drop_last()[i]);
        }
    }
}

impl QueryMap {
    /// A map without parameters.
    pub fn new() -> (r: QueryMap)
        ensures
            r.entries@.len() == 0,
    {
        QueryMap { entries: Vec::new() }
    }

    /// The value of a parameter.
    pub fn get(&self, key: &str) -> (r: Option<String>)
        ensures
            r matches Some(v) ==> query_get(self.entries@, key@) == Some(v@),
            r is None ==> query_get(self.entries@, key@) is None,
    {
        let mut k = self.entries.len();
        assert(self.entries@.take(k as int) =~= self.entries@);
        while k > 0
            invariant
                k <= self.entries@.len(),
                query_get(self.entries@, key@) == query_get(self.entries@.take(k as int), key@),
            decreases k,
        {
            let ghost t = self.entries@.take(k as int);
            assert(t.drop_last() =~= self.entries@.take(k - 1));
            if crate::text::str_eq(self.entries[k - 1].0.as_str(), key) {
                return Some(self.entries[k - 1].1.clone());
            }
            k = k - 1;
        }
        None
    }

    /// Sets a parameter, replacing an earlier value.
    pub fn insert(&mut self, key: String, value: String)
        ensures
            final(self).entries@ == old(self).entries@.push((key, value)),
    {
        self.entries.push((key, value));
    }
}

/// Whether two query maps give the same value for every key.
pub fn queries_equal(a: &QueryMap, b: &QueryMap) -> (r: bool)
    ensures
        r == same_queries(a.entries@, b.entries@),
{
    let mut i: usize = 0;
    while i < a.entries.len()
        invariant
            i <= a.entries@.len(),
            forall|j: int| 0 <= j < i ==> query_get(a.entries@, (#[trigger] a.entries@[j]).0@) == query_get(
                b.entries@,
                a.entries@[j].0@,
            ),
        decreases a.entries@.len() - i,
    {
        let va = a.get(a.entries[i].0.as_str());
        let vb = b.get(a.entries[i].0.as_str());
        let same = match (&va, &vb) {
            (Some(x), Some(y)) => *x == *y,
            (None, None) => true,
            _ => false,
        };
        if !same {
            return false;
        }
        i = i + 1;
    }
    let mut j: usize = 0;
    while j < b.entries.len()
        invariant
            j <= b.entries@.len(),
            forall|q: int| 0 <= q < a.entries@.len() ==> query_get(a.entries@, (#[trigger] a.entries@[q]).0@) == query_get(
                b.entries@,
                a.entries@[q].0@,
            ),
            forall|q: int| 0 <= q < j ==> query_get(a.entries@, (#[trigger] b.entries@[q]).0@) == query_get(
                b.entries@,
                b.entries@[q].0@,
            ),
        decreases b.entries@.len() - j,
    {
        let va = a.get(b.entries[j].0.as_str());
        let vb = b.get(b.entries[j].0.as_str());
        let same = match (&va, &vb) {
            (Some(x), Some(y)) => *x == *y,
            (None, None) => true,
            _ => false,
        };
        if !same {
            return false;
        }
        j = j + 1;
    }
    proof {
        assert forall|k: Seq<char>| query_get(a.entries@, k) == query_get(b.entries@, k) by {
            lemma_query_get_some(a.entries@, k);
            lemma_query_get_some(b.entries@, k);
            if exists|i: int| 0 <= i < a.entries@.len() && a.entries@[i].0@ == k {
                let i = choose|i: int| 0 <= i < a.entries@.len() && a.entries@[i].0@ == k;
                assert(query_get(a.entries@, a.entries@[i].0@) == query_get(b.entries@, a.entries@[i].0@));
            } else if exists|i: int| 0 <= i < b.entries@.len() && b.entries@[i].0@ == k {
                let i = choose|i: int| 0 <= i < b.entries@.len() && b.entries@[i].0@ == k;
                assert(query_get(a.entries@, b.entries@[i].0@) == query_get(b.entries@, b.entries@[i].0@));
            }
        }
    }
    true
}

// ---------------------------------------------------------------------------
// Parsing

/// `s` split at the first occurrence of `c` (as `str::split_once`).
pub open spec fn split_once_at(s: Seq<char>, c: char) -> Option<(Seq<char>, Seq<char>)> {
    match first_occurrence(s, seq![c]) {
        Some(i) => Some((s.take(i), s.skip(i + 1))),
        None => None,
    }
}

/// Splits `s` at the first occurrence of `c`.
pub fn split_once(s: &str, c: char) -> (r: Option<(String, String)>)
    ensures
        match r {
            Some((a, b)) => split_once_at(s@, c) == Some((a@, b@)),
            None => split_once_at(s@, c) is None,
        },
{
    let cs = chars_of(s);
    let pat: Vec<char> = vec![c];
    assert(pat@ =~= seq![c]);
    match find(cs.as_slice(), pat.as_slice()) {
        Some(i) => {
            assert(occurs_at(cs@, pat@, i as int));
            let n = cs.len();
            assert(i + 1 <= n);
            let a = string_of(&cs.as_slice()[0..i]);
            let b = string_of(&cs.as_slice()[i + 1..cs.len()]);
            assert(cs@.subrange(0, i as int) =~= s@.take(i as int));
            assert(cs@.subrange(i + 1, cs@.len() as int) =~= s@.skip(i + 1));
            Some((a, b))
        },
        None => None,
    }
}

/// The key and value of one `key=value` piece: the text before the first `=`
/// and after it, or the whole piece and an empty value without `=`.
pub open spec fn key_value(piece: Seq<char>) -> (Seq<char>, Seq<char>) {
    match split_once_at(piece, '=') {
        Some(kv) => kv,
        None => (piece, Seq::empty()),
    }
}

/// The raw `(key, value)` pairs of the pieces of a query string, skipping
/// empty pieces and pieces with an empty key.
pub open spec fn raw_pairs(pieces: Seq<Seq<char>>) -> Seq<(Seq<char>, Seq<char>)>
    decreases pieces.len(),
{
    if pieces.len() == 0 {
        Seq::empty()
    } else {
        let pre = raw_pairs(pieces.drop_last());
        let p = pieces.last();
        if p.len() == 0 || key_value(p).0.len() == 0 {
            pre
        } else {
            pre.push(key_value(p))
        }
    }
}

/// The views of a list of string pairs.
pub open spec fn pair_views(v: Seq<(String, String)>) -> Seq<(Seq<char>, Seq<char>)> {
    v.map_values(|p: (String, String)| (p.0@, p.1@))
}

/// The `(key, value)` pairs of a query string, before percent-decoding.
pub fn parse_query_pairs(qs: &str) -> (r: Vec<(String, String)>)
    ensures
        pair_views(r@) == raw_pairs(split_on(qs@, '&')),
{
    let pieces = split_char(qs, '&');
    let mut r: Vec<(String, String)> = Vec::new();
    let mut i: usize = 0;
    while i < pieces.len()
        invariant
            i <= pieces@.len(),
            views(pieces@) == split_on(qs@, '&'),
            pair_views(r@) == raw_pairs(views(pieces@).take(i as int)),
        decreases pieces@.len() - i,
    {
        let piece = &pieces[i];
        proof {
            assert(views(pieces@).take(i + 1).drop_last() =~= views(pieces@).take(i as int));
            assert(views(pieces@).take(i + 1).last() == piece@);
        }
        let ghost before = pair_views(r@);
        if piece.as_str().is_empty() {
        } else {
            let (key, value) = match split_once(piece.as_str(), '=') {
                Some(kv) => kv,
                None => (piece.clone(), String::new()),
            };
            assert((key@, value@) == key_value(piece@));
            if !key.as_str().is_empty() {
                r.push((key, value));
                assert(pair_views(r@) =~= before.push(key_value(piece@)));
            }
        }
        i = i + 1;
    }
    assert(views(pieces@).take(pieces@.len() as int) =~= views(pieces@));
    r
}

/// What `decodeURIComponent` gives for a text: the decoded text, or nothing
/// when the text is not a well-formed encoding.
pub uninterp spec fn decoded_uri_component(encoded: Seq<char>) -> Option<Seq<char>>;

/// `js_sys::decode_uri_component`: the JavaScript `decodeURIComponent`.
///
/// Trusted: the result is a function of the text alone, named
/// `decoded_uri_component`; an error becomes `None`. `decodeURIComponent`
/// rewrites only `%` escape sequences, so a text without `%` decodes to
/// itself; what it makes of `%` escapes is not stated. The call is a
/// wasm-bindgen import and only returns on a wasm32 target running in
/// JavaScript.
#[verifier::external_body]
fn decode_uri_component(encoded: &str) -> (r: Option<String>)
    ensures
        match r {
            Some(d) => decoded_uri_component(encoded@) == Some(d@) && (!encoded@.contains('%') ==> d@ == encoded@),
            None => decoded_uri_component(encoded@) is None && encoded@.contains('%'),
        },
{
    match js_sys::decode_uri_component(encoded) {
        Ok(s) => Some(String::from(s)),
        Err(_) => None,
    }
}

/// A character `encodeURIComponent` leaves as it is: an ASCII letter or
/// digit, or one of `- _ . ! ~ * ' ( )`.
pub open spec fn uri_unreserved(c: char) -> bool {
    ||| ('A' <= c && c <= 'Z')
    ||| ('a' <= c && c <= 'z')
    ||| ('0' <= c && c <= '9')
    ||| c == '-' || c == '_' || c == '.' || c == '!' || c == '~' || c == '*' || c == '\'' || c == '(' || c == ')'
}

/// An upper-case hexadecimal digit for a number below 16.
pub open spec fn hex_digit(n: int) -> char {
    if n < 10 { (48 + n) as char } else { (55 + n) as char }
}

/// Each byte as `%` and two upper-case hexadecimal digits.
pub open spec fn percent_bytes(bytes: Seq<u8>) -> Seq<char>
    decreases bytes.len(),
{
    if bytes.len() == 0 {
        Seq::empty()
    } else {
        seq!['%', hex_digit(bytes[0] as int / 16), hex_digit(bytes[0] as int % 16)] + percent_bytes(bytes.drop_first())
    }
}

/// A text as a URI component: unreserved characters as they are, every
/// other character as the `%XX` escapes of its UTF-8 bytes.
pub open spec fn uri_component_encoded(s: Seq<char>) -> Seq<char>
    decreases s.len(),
{
    if s.len() == 0 {
        Seq::empty()
    } else {
        (if uri_unreserved(s[0]) {
            seq![s[0]]
        } else {
            percent_bytes(vstd::utf8::encode_scalar(s[0] as u32))
        }) + uri_component_encoded(s.drop_first())
    }
}

/// `js_sys::encode_uri_component`: the JavaScript `encodeURIComponent`.
///
/// Trusted: the result is the text with every character other than ASCII
/// letters, digits and `- _ . ! ~ * ' ( )` replaced by the `%XX` escapes
/// (upper-case hexadecimal) of its UTF-8 bytes. A `&str` holds no lone
/// surrogate, so the call does not throw. It is a wasm-bindgen import and
/// only returns on a wasm32 target running in JavaScript.
#[verifier::external_body]
pub(crate) fn encode_uri_component(decoded: &str) -> (r: String)
    ensures
        r@ == uri_component_encoded(decoded@),
{
    String::from(js_sys::encode_uri_component(decoded))
}

/// The value of a parameter after decoding; an undecodable value is kept as
/// it is.
pub open spec fn decoded_or_raw(value: Seq<char>) -> Seq<char> {
    match decoded_uri_component(value) {
        Some(d) => d,
        None => value,
    }
}

/// The value a parameter reads as: a value without `%` as it stands, any
/// other decoded (or kept when it does not decode).
pub open spec fn read_value(value: Seq<char>) -> Seq<char> {
    if value.contains('%') { decoded_or_raw(value) } else { value }
}

/// The `(key, value)` pairs a query string reads as, values decoded.
pub open spec fn read_pairs(qs: Seq<char>) -> Seq<(Seq<char>, Seq<char>)> {
    raw_pairs(split_on(qs, '&')).map_values(|p: (Seq<char>, Seq<char>)| (p.0, read_value(p.1)))
}

/// The value of the latest `(key, value)` pair for `key`.
pub open spec fn pair_get(pairs: Seq<(Seq<char>, Seq<char>)>, key: Seq<char>) -> Option<Seq<char>>
    decreases pairs.len(),
{
    if pairs.len() == 0 {
        None
    } else if pairs.last().0 == key {
        Some(pairs.last().1)
    } else {
        pair_get(pairs.drop_last(), key)
    }
}

/// A lookup in a query map is a lookup in the views of its entries.
pub proof fn lemma_query_get_pairs(entries: Seq<(String, String)>, key: Seq<char>)
    ensures
        query_get(entries, key) == pair_get(pair_views(entries), key),
    decreases entries.len(),
{
    if entries.len() > 0 {
        lemma_query_get_pairs(entries.drop_last(), key);
        assert(pair_views(entries).drop_last() =~= pair_views(entries.drop_last()));
    }
}

/// Parses a query string into a map, decoding each value; for a repeated
/// key the last value counts.
pub fn parse_query_string(qs: &str) -> (r: QueryMap)
    ensures
        pair_views(r.entries@) == read_pairs(qs@),
{
    let pairs = parse_query_pairs(qs);
    let mut m = QueryMap::new();
    let mut i: usize = 0;
    while i < pairs.len()
        invariant
            i <= pairs@.len(),
            pair_views(pairs@) == raw_pairs(split_on(qs@, '&')),
            m.entries@.len() == i,
            forall|j: int| 0 <= j < i ==> (#[trigger] m.entries@[j]).0@ == pairs@[j].0@
                && m.entries@[j].1@ == read_value(pairs@[j].1@),
        decreases pairs@.len() - i,
    {
        let value = match decode_uri_component(pairs[i].1.as_str()) {
            Some(d) => d,
            None => pairs[i].1.clone(),
        };
        m.insert(pairs[i].0.clone(), value);
        i = i + 1;
    }
    proof {
        assert forall|i: int| 0 <= i < m.entries@.len() implies pair_views(m.entries@)[i] == read_pairs(qs@)[i] by {
            assert(pair_views(pairs@)[i] == (pairs@[i].0@, pairs@[i].1@));
        }
        assert(pair_views(m.entries@) =~= read_pairs(qs@));
    }
    m
}

/// The path and query text of a hash: without a leading `#`, `/` when
/// empty, split at the first `?`.
pub open spec fn hash_parts(hash: Seq<char>) -> (Seq<char>, Option<Seq<char>>) {
    let h = if hash.len() > 0 && hash[0] == '#' { hash.drop_first() } else { hash };
    let h = if h.len() == 0 { "/"@ } else { h };
    match split_once_at(h, '?') {
        Some((path, qs)) => (path, Some(qs)),
        None => (h, None),
    }
}

/// Splits a location hash into its path and its parameters.
pub fn parse_hash(hash: &str) -> (r: (String, QueryMap))
    ensures
        r.0@ == hash_parts(hash@).0,
        pair_views(r.1.entries@) == match hash_parts(hash@).1 {
            Some(qs) => read_pairs(qs),
            None => Seq::empty(),
        },
{
    let cs = chars_of(hash);
    let h: String = if cs.len() > 0 && cs[0] == '#' {
        let s = string_of(&cs.as_slice()[1..cs.len()]);
        assert(cs@.subrange(1, cs@.len() as int) =~= hash@.drop_first());
        s
    } else {
        owned(hash)
    };
    let h: String = if h.as_str().is_empty() { owned("/") } else { h };
    match split_once(h.as_str(), '?') {
        Some((path, qs)) => (path, parse_query_string(qs.as_str())),
        None => (h, QueryMap::new()),
    }
}

/// The hash URL for a navigation target: the target itself when it starts
/// with `#`, else `#` in front of it.
pub open spec fn hash_url_of(url: Seq<char>) -> Seq<char> {
    if url.len() > 0 && url[0] == '#' { url } else { seq!['#'] + url }
}

/// The hash URL to navigate to.
pub fn hash_url(url: &str) -> (r: String)
    ensures
        r@ == hash_url_of(url@),
{
    let cs = chars_of(url);
    if cs.len() > 0 && cs[0] == '#' {
        owned(url)
    } else {
        let r = concat("#", url);
        proof {
            reveal_strlit("#");
        }
        r
    }
}

/// Which location signals must change: the path when it differs, the
/// parameters when some key has another value.
pub fn location_changes(
    old_path: &String,
    old_query: &QueryMap,
    new_path: &String,
    new_query: &QueryMap,
) -> (r: (bool, bool))
    ensures
        r.0 == (old_path@ != new_path@),
        r.1 == !same_queries(old_query.entries@, new_query.entries@),
{
    (*old_path != *new_path, !queries_equal(old_query, new_query))
}

/// The pages of the site.
#[derive(Clone, Debug, PartialEq, Eq)]
pub enum Route {
    /// The listing, at `/`.
    Listing,
    /// The page of the school with the given id, at `/school/{id}`.
    School(String),
    /// Any other path.
    NotFound,
}

/// The page a path leads to: `/` the listing, `/school/{id}` with a
/// non-empty id free of `/` that school's page, anything else none.
pub open spec fn route_of_path(path: Seq<char>) -> Option<Option<Seq<char>>> {
    if path == "/"@ {
        Some(None)
    } else if path.len() > 8 && path.take(8) == "/school/"@ && !path.skip(8).contains('/') {
        Some(Some(path.skip(8)))
    } else {
        None
    }
}

/// Matches a path against the routes of the site.
pub fn route_of(path: &str) -> (r: Route)
    ensures
        match route_of_path(path@) {
            Some(None) => r == Route::Listing,
            Some(Some(id)) => r matches Route::School(i) && i@ == id,
            None => r == Route::NotFound,
        },
{
    if crate::text::str_eq(path, "/") {
        return Route::Listing;
    }
    let cs = chars_of(path);
    let prefix = chars_of("/school/");
    proof {
        reveal_strlit("/school/");
    }
    if cs.len() <= 8 {
        return Route::NotFound;
    }
    let mut k: usize = 0;
    while k < 8
        invariant
            k <= 8,
            cs@ == path@,
            prefix@ == "/school/"@,
            prefix@.len() == 8,
            path@ != "/"@,
            cs@.len() > 8,
            forall|j: int| 0 <= j < k ==> cs@[j] == prefix@[j],
        decreases 8 - k,
    {
        if cs[k] != prefix[k] {
            assert(path@.take(8)[k as int] != "/school/"@[k as int]);
            return Route::NotFound;
        }
        k = k + 1;
    }
    assert(path@.take(8) =~= "/school/"@);
    let mut i: usize = 8;
    while i < cs.len()
        invariant
            8 <= i <= cs@.len(),
            cs@ == path@,
            path@ != "/"@,
            path@.take(8) == "/school/"@,
            forall|j: int| 8 <= j < i ==> cs@[j] != '/',
        decreases cs@.len() - i,
    {
        if cs[i] == '/' {
            assert(path@.skip(8)[i - 8] == '/');
            return Route::NotFound;
        }
        i = i + 1;
    }
    assert(!path@.skip(8).contains('/')) by {
        if path@.skip(8).contains('/') {
            let j = choose|j: int| 0 <= j < path@.skip(8).len() && path@.skip(8)[j] == '/';
            assert(cs@[j + 8] == '/');
        }
    }
    let id = string_of(&cs.as_slice()[8..cs.len()]);
    assert(cs@.subrange(8, cs@.len() as int) =~= path@.skip(8));
    Route::School(id)
}

/// Reading back a location navigated to: the hash URL of a path, with or
/// without a query, splits into that path and that query, provided the path
/// is not empty, does not start with `#` and has no `?`.
pub proof fn lemma_navigation_roundtrip(path: Seq<char>, query: Option<Seq<char>>)
    requires
        path.len() > 0,
        path[0] != '#',
        !path.contains('?'),
    ensures
        hash_parts(hash_url_of(match query {
            Some(q) => path + "?"@ + q,
            None => path,
        })) == (path, query),
{
    reveal_strlit("?");
    reveal_strlit("/");
    let url = match query {
        Some(q) => path + "?"@ + q,
        None => path,
    };
    assert(url[0] == path[0]);
    let h = hash_url_of(url);
    assert(h == seq!['#'] + url);
    assert(h.drop_first() =~= url);
    let pat = seq!['?'];
    crate::text::lemma_find_from(url, pat, 0);
    assert forall|j: int| 0 <= j < path.len() implies !crate::text::occurs_at(url, pat, j) by {
        if crate::text::occurs_at(url, pat, j) {
            assert(url.subrange(j, j + 1)[0] == url[j]);
            assert(url[j] == path[j]);
        }
    }
    match query {
        Some(q) => {
            assert(crate::text::occurs_at(url, pat, path.len() as int)) by {
                assert(url.subrange(path.len() as int, path.len() as int + 1) =~= pat);
            }
            let k = crate::text::find_from(url, pat, 0)->0;
            assert(k == path.len());
            assert(url.take(path.len() as int) =~= path);
            assert(url.skip(path.len() as int + 1) =~= q);
        },
        None => {
            assert forall|j: int| 0 <= j implies !crate::text::occurs_at(url, pat, j) by {
                if j >= path.len() {
                    assert(!crate::text::occurs_at(url, pat, j));
                }
            }
        },
    }
}

} // verus!
