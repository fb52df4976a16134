//! The saved address as stored in the browser:
//! `{"text":"...","lat":52.52,"lng":13.405}`, read and written without a
//! JSON library. The numbers are handled as text here.
use vstd::prelude::*;

use crate::text::{chars_of, concat, find, first_occurrence, owned, replace, replace_all, string_of};

verus! {

broadcast use vstd::string::group_string_axioms;

/// The key under which the address is stored.
pub const STORAGE_KEY: &'static str = "saved_address";

/// The pattern that introduces a string field: `"field":"`.
pub open spec fn string_field_pattern(field: Seq<char>) -> Seq<char> {
    seq!['"'] + field + seq!['"', ':', '"']
}

/// The pattern that introduces a number field: `"field":`.
pub open spec fn number_field_pattern(field: Seq<char>) -> Seq<char> {
    seq!['"'] + field + seq!['"', ':']
}

/// `rest[e]` is a quote that no backslash escapes.
pub open spec fn closing_quote_at(rest: Seq<char>, e: int) -> bool {
    0 <= e < rest.len() && rest[e] == '"' && (e == 0 || rest[e - 1] != '\\')
}

/// Position of the first unescaped quote in `rest`, or its length.
pub open spec fn closing_quote(rest: Seq<char>, from: int) -> int
    decreases rest.len() - from,
{
    if from >= rest.len() || from < 0 {
        rest.len() as int
    } else if closing_quote_at(rest, from) {
        from
    } else {
        closing_quote(rest, from + 1)
    }
}

/// The value of a string field: the text after the first `"field":"` up to
/// the first quote not preceded by a backslash (or the end), with `\"`
/// turned back into `"`.
pub open spec fn string_field(json: Seq<char>, field: Seq<char>) -> Option<Seq<char>> {
    match first_occurrence(json, string_field_pattern(field)) {
        Some(i) => {
            let rest = json.skip(i + string_field_pattern(field).len());
            Some(replace_all(rest.take(closing_quote(rest, 0)), seq!['\\', '"'], seq!['"']))
        },
        None => None,
    }
}

proof fn lemma_closing_quote_bounds(rest: Seq<char>, from: int)
    requires
        0 <= from,
    ensures
        from <= closing_quote(rest, from) <= rest.len() || (from > rest.len() && closing_quote(rest, from) == rest.len()),
    decreases rest.len() - from,
{
    if from < rest.len() && !closing_quote_at(rest, from) {
        lemma_closing_quote_bounds(rest, from + 1);
    }
}

fn field_pattern(field: &str, tail: &str) -> (r: Vec<char>)
    ensures
        r@ == seq!['"'] + field@ + tail@,
{
    let a = concat("\"", field);
    let b = concat(a.as_str(), tail);
    proof {
        reveal_strlit("\"");
    }
    chars_of(b.as_str())
}

/// Extracts a string field of the stored address.
pub fn extract_string_field(json: &str, field: &str) -> (r: Option<String>)
    ensures
        match r {
            Some(v) => string_field(json@, field@) == Some(v@),
            None => string_field(json@, field@) is None,
        },
{
    let cs = chars_of(json);
    let pat = field_pattern(field, "\":\"");
    proof {
        reveal_strlit("\":\"");
        assert(pat@ =~= string_field_pattern(field@));
    }
    let n = cs.len();
    let start = match find(cs.as_slice(), pat.as_slice()) {
        Some(i) => {
            assert(crate::text::occurs_at(cs@, pat@, i as int));
            assert(i + pat@.len() <= n);
            i + pat.len()
        },
        None => return None,
    };
    let rest = &cs.as_slice()[start..cs.len()];
    assert(rest@ =~= json@.skip(start as int));
    let mut end: usize = 0;
    while end < rest.len()
        invariant
            end <= rest@.len(),
            closing_quote(rest@, 0) == closing_quote(rest@, end as int),
        ensures
            closing_quote(rest@, 0) == end,
            end <= rest@.len(),
        decreases rest@.len() - end,
    {
        if rest[end] == '"' && (end == 0 || rest[end - 1] != '\\') {
            assert(closing_quote_at(rest@, end as int));
            break;
        }
        end = end + 1;
    }
    let inner = string_of(&rest[0..end]);
    assert(rest@.subrange(0, end as int) =~= rest@.take(closing_quote(rest@, 0)));
    proof {
        reveal_strlit("\\\"");
        reveal_strlit("\"");
        assert("\\\""@ =~= seq!['\\', '"']);
        assert("\""@ =~= seq!['"']);
    }
    let r = replace(inner.as_str(), "\\\"", "\"");
    Some(r)
}

/// Position of the first character at or after `from` that cannot be part
/// of a number, if any.
pub open spec fn number_end(rest: Seq<char>, from: int) -> Option<int>
    decreases rest.len() - from,
{
    if from >= rest.len() || from < 0 {
        None
    } else if !is_number_char(rest[from]) {
        Some(from)
    } else {
        number_end(rest, from + 1)
    }
}

/// The text of a number field: the characters after the first `"field":`
/// up to the first character that is not a digit, `-` or `.`; nothing when
/// no such character follows.
pub open spec fn number_field_text(json: Seq<char>, field: Seq<char>) -> Option<Seq<char>> {
    match first_occurrence(json, number_field_pattern(field)) {
        Some(i) => {
            let rest = json.skip(i + number_field_pattern(field).len());
            match number_end(rest, 0) {
                Some(e) => Some(rest.take(e)),
                None => None,
            }
        },
        None => None,
    }
}

/// A character that may be part of a decimal number: a digit, `-` or `.`.
pub open spec fn is_number_char(c: char) -> bool {
    c == '-' || c == '.' || ('0' <= c && c <= '9')
}

/// Extracts the text of a number field of the stored address; reading it
/// as a number is left to the caller.
pub fn extract_number_text(json: &str, field: &str) -> (r: Option<String>)
    ensures
        match r {
            Some(v) => number_field_text(json@, field@) == Some(v@),
            None => number_field_text(json@, field@) is None,
        },
{
    let cs = chars_of(json);
    let pat = field_pattern(field, "\":");
    proof {
        reveal_strlit("\":");
        assert(pat@ =~= number_field_pattern(field@));
    }
    let n = cs.len();
    let start = match find(cs.as_slice(), pat.as_slice()) {
        Some(i) => {
            assert(crate::text::occurs_at(cs@, pat@, i as int));
            assert(i + pat@.len() <= n);
            i + pat.len()
        },
        None => return None,
    };
    let rest = &cs.as_slice()[start..cs.len()];
    assert(rest@ =~= json@.skip(start as int));
    let mut end: usize = 0;
    assert(number_field_text(json@, field@) == (match number_end(rest@, 0) {
        Some(e) => Some(rest@.take(e)),
        None => None,
    }));
    while end < rest.len()
        invariant
            end <= rest@.len(),
            number_end(rest@, 0) == number_end(rest@, end as int),
            number_field_text(json@, field@) == (match number_end(rest@, 0) {
                Some(e) => Some(rest@.take(e)),
                None => None,
            }),
        decreases rest@.len() - end,
    {
        let c = rest[end];
        if !(c == '-' || c == '.' || ('0' <= c && c <= '9')) {
            assert(number_end(rest@, end as int) == Some(end as int));
            let r = string_of(&rest[0..end]);
            assert(rest@.subrange(0, end as int) =~= rest@.take(end as int));
            return Some(r);
        }
        end = end + 1;
    }
    None
}

/// A text with every `"` written as `\"`.
pub open spec fn escape_quotes(text: Seq<char>) -> Seq<char> {
    replace_all(text, seq!['"'], seq!['\\', '"'])
}

/// The stored form of an address: its text with quotes escaped, and the
/// coordinates as given.
pub open spec fn address_json(text: Seq<char>, lat: Seq<char>, lng: Seq<char>) -> Seq<char> {
    "{\"text\":\""@ + escape_quotes(text) + "\",\"lat\":"@ + lat + ",\"lng\":"@ + lng + "}"@
}

/// Writes the stored form of an address whose coordinates are already
/// formatted.
pub fn saved_address_json(text: &str, lat: &str, lng: &str) -> (r: String)
    ensures
        r@ == address_json(text@, lat@, lng@),
{
    proof {
        reveal_strlit("\\\"");
        reveal_strlit("\"");
        assert("\\\""@ =~= seq!['\\', '"']);
        assert("\""@ =~= seq!['"']);
    }
    let escaped = replace(text, "\"", "\\\"");
    let a = concat("{\"text\":\"", escaped.as_str());
    let b = concat(a.as_str(), "\",\"lat\":");
    let c = concat(b.as_str(), lat);
    let d = concat(c.as_str(), ",\"lng\":");
    let e = concat(d.as_str(), lng);
    concat(e.as_str(), "}")
}

// ---------------------------------------------------------------------------
// Reading back what was written

/// Escaping a text that starts with `c`: the escape of `c`, then the
/// escape of the rest.
proof fn lemma_escape_cons(c: char, rest: Seq<char>)
    ensures
        escape_quotes(seq![c] + rest) == (if c == '"' { seq!['\\', '"'] } else { seq![c] }) + escape_quotes(rest),
{
    let s = seq![c] + rest;
    assert(s.take(1) =~= seq![c]);
    assert(s.skip(1) =~= rest);
}

/// An escaped text: every quote in it follows a backslash, it ends with a
/// backslash exactly when the text does, and unescaping gives the text back.
proof fn lemma_escape_props(t: Seq<char>)
    ensures
        forall|k: int| 0 <= k < escape_quotes(t).len() && #[trigger] escape_quotes(t)[k] == '"' ==> k > 0
            && escape_quotes(t)[k - 1] == '\\',
        escape_quotes(t).len() == 0 <==> t.len() == 0,
        t.len() > 0 ==> (escape_quotes(t).last() == '\\' <==> t.last() == '\\'),
        replace_all(escape_quotes(t), seq!['\\', '"'], seq!['"']) == t,
    decreases t.len(),
{
    if t.len() == 0 {
        assert(escape_quotes(t) =~= Seq::<char>::empty());
    } else {
        let c = t[0];
        let r = t.skip(1);
        assert(t =~= seq![c] + r);
        lemma_escape_cons(c, r);
        lemma_escape_props(r);
        let er = escape_quotes(r);
        let head: Seq<char> = if c == '"' { seq!['\\', '"'] } else { seq![c] };
        let e = head + er;
        assert(escape_quotes(t) == e);
        assert forall|k: int| 0 <= k < e.len() && #[trigger] e[k] == '"' implies k > 0 && e[k - 1] == '\\' by {
            if k >= head.len() {
                assert(e[k] == er[k - head.len()]);
                if k - head.len() > 0 {
                    assert(e[k - 1] == er[k - head.len() - 1]);
                }
            }
        }
        if r.len() > 0 {
            assert(e.last() == er.last());
            assert(t.last() == r.last());
        }
        // Unescaping.
        let pat = seq!['\\', '"'];
        if c == '"' {
            assert(e.take(2) =~= pat);
            assert(e.skip(2) =~= er);
            assert(replace_all(e, pat, seq!['"']) =~= seq!['"'] + r);
        } else if e.len() < 2 {
            assert(er.len() == 0);
            assert(r =~= Seq::<char>::empty());
            assert(e =~= seq![c]);
        } else {
            assert(er.len() > 0);
            assert(er[0] != '"');
            assert(e.take(2) != pat) by {
                assert(e.take(2)[1] == er[0]);
            }
            assert(e.skip(1) =~= er);
            assert(e[0] == c);
            assert(replace_all(e, pat, seq!['"']) =~= seq![c] + r);
        }
    }
}

/// The first unescaped quote at or after `from` is at `k`.
proof fn lemma_closing_quote_is(rest: Seq<char>, from: int, k: int)
    requires
        0 <= from <= k < rest.len(),
        closing_quote_at(rest, k),
        forall|e: int| from <= e < k ==> !closing_quote_at(rest, e),
    ensures
        closing_quote(rest, from) == k,
    decreases k - from,
{
    if from < k {
        lemma_closing_quote_is(rest, from + 1, k);
    }
}

/// The text field of the stored form reads back as the text, unless the
/// text ends with a backslash (which would escape the closing quote).
pub proof fn lemma_saved_text_roundtrip(text: Seq<char>, lat: Seq<char>, lng: Seq<char>)
    requires
        !(text.len() > 0 && text.last() == '\\'),
    ensures
        string_field(address_json(text, lat, lng), "text"@) == Some(text),
{
    reveal_strlit("text");
    reveal_strlit("{\"text\":\"");
    reveal_strlit("\",\"lat\":");
    let e = escape_quotes(text);
    lemma_escape_props(text);
    let a = "{\"text\":\""@;
    let b = "\",\"lat\":"@ + lat + ",\"lng\":"@ + lng + "}"@;
    let json = address_json(text, lat, lng);
    assert(json =~= a + e + b);
    let pat = string_field_pattern("text"@);
    assert(pat.len() == 8);
    assert(!crate::text::occurs_at(json, pat, 0)) by {
        assert(json.subrange(0, 8)[0] == '{');
    }
    assert(crate::text::occurs_at(json, pat, 1)) by {
        assert(json.subrange(1, 9) =~= pat);
    }
    assert(crate::text::find_from(json, pat, 1) == Some(1int));
    assert(first_occurrence(json, pat) == Some(1int));
    let rest = json.skip(9);
    assert(rest =~= e + b);
    assert(b[0] == '"');
    assert forall|k: int| 0 <= k < e.len() implies !closing_quote_at(rest, k) by {
        assert(rest[k] == e[k]);
        if k > 0 {
            assert(rest[k - 1] == e[k - 1]);
        }
    }
    assert(closing_quote_at(rest, e.len() as int)) by {
        assert(rest[e.len() as int] == b[0]);
        if e.len() > 0 {
            assert(rest[e.len() - 1] == e.last());
        }
    }
    lemma_closing_quote_is(rest, 0, e.len() as int);
    assert(rest.take(e.len() as int) =~= e);
}

/// The first character at or after `from` that cannot be part of a number
/// is at `k`.
proof fn lemma_number_end_is(rest: Seq<char>, from: int, k: int)
    requires
        0 <= from <= k < rest.len(),
        !is_number_char(rest[k]),
        forall|e: int| from <= e < k ==> is_number_char(#[trigger] rest[e]),
    ensures
        number_end(rest, from) == Some(k),
    decreases k - from,
{
    if from < k {
        lemma_number_end_is(rest, from + 1, k);
    }
}

/// A text made of digits, `-` and `.` only.
pub open spec fn number_text(v: Seq<char>) -> bool {
    forall|i: int| 0 <= i < v.len() ==> is_number_char(#[trigger] v[i])
}

/// The coordinates of the stored form read back as written, when each is
/// made of digits, `-` and `.` only.
pub proof fn lemma_saved_coordinates_roundtrip(text: Seq<char>, lat: Seq<char>, lng: Seq<char>)
    requires
        number_text(lat),
        number_text(lng),
    ensures
        number_field_text(address_json(text, lat, lng), "lat"@) == Some(lat),
        number_field_text(address_json(text, lat, lng), "lng"@) == Some(lng),
{
    reveal_strlit("lat");
    reveal_strlit("lng");
    reveal_strlit("{\"text\":\"");
    reveal_strlit("\",\"lat\":");
    reveal_strlit(",\"lng\":");
    reveal_strlit("}");
    let e = escape_quotes(text);
    lemma_escape_props(text);
    let n = e.len() as int;
    let ln = lat.len() as int;
    let a = "{\"text\":\""@;
    let m1 = "\",\"lat\":"@;
    let m2 = ",\"lng\":"@;
    let json = address_json(text, lat, lng);
    assert(json =~= a + e + m1 + lat + m2 + lng + "}"@);
    assert(json.len() == 9 + n + 8 + ln + 7 + lng.len() + 1);
    assert forall|k: int| 0 <= k < 9 implies json[k] == a[k] by {}
    assert forall|k: int| 9 <= k < 9 + n implies json[k] == e[k - 9] by {}
    assert forall|k: int| 9 + n <= k < 17 + n implies json[k] == m1[k - 9 - n] by {}
    assert forall|k: int| 17 + n <= k < 17 + n + ln implies json[k] == lat[k - 17 - n] by {}
    assert forall|k: int| 17 + n + ln <= k < 24 + n + ln implies json[k] == m2[k - 17 - n - ln] by {}

    // The latitude.
    let pl = number_field_pattern("lat"@);
    assert(pl.len() == 6);
    assert forall|i: int| 0 <= i < 11 + n implies !crate::text::occurs_at(json, pl, i) by {
        if crate::text::occurs_at(json, pl, i) {
            let w = json.subrange(i, i + 6);
            assert(w[0] == json[i] && w[3] == json[i + 3] && w[4] == json[i + 4] && w[5] == json[i + 5]);
            let j = i + 4;
            if j < 9 {
            } else if j < 9 + n {
                assert(json[j] == e[j - 9]);
                assert(json[j - 1] == e[j - 10]);
            } else {
            }
        }
    }
    assert(crate::text::occurs_at(json, pl, 11 + n)) by {
        assert(json.subrange(11 + n, 17 + n) =~= pl);
    }
    crate::text::lemma_find_from(json, pl, 0);
    assert(first_occurrence(json, pl) == Some(11 + n));
    let rest = json.skip(17 + n);
    assert(rest =~= lat + m2 + lng + "}"@);
    assert forall|k: int| 0 <= k < ln implies is_number_char(#[trigger] rest[k]) by {
        assert(rest[k] == lat[k]);
    }
    assert(rest[ln] == ',');
    lemma_number_end_is(rest, 0, ln);
    assert(rest.take(ln) =~= lat);

    // The longitude.
    let pg = number_field_pattern("lng"@);
    assert(pg.len() == 6);
    assert forall|i: int| 0 <= i < 18 + n + ln implies !crate::text::occurs_at(json, pg, i) by {
        if crate::text::occurs_at(json, pg, i) {
            let w = json.subrange(i, i + 6);
            assert(w[0] == json[i] && w[3] == json[i + 3] && w[4] == json[i + 4] && w[5] == json[i + 5]);
            let j = i + 4;
            if j < 9 {
            } else if j < 9 + n {
                assert(json[j] == e[j - 9]);
                assert(json[j - 1] == e[j - 10]);
            } else if j < 17 + n {
            } else if j < 17 + n + ln {
                assert(json[j] == lat[j - 17 - n]);
                assert(is_number_char(lat[j - 17 - n]));
            } else {
            }
        }
    }
    assert(crate::text::occurs_at(json, pg, 18 + n + ln)) by {
        assert(json.subrange(18 + n + ln, 24 + n + ln) =~= pg);
    }
    crate::text::lemma_find_from(json, pg, 0);
    assert(first_occurrence(json, pg) == Some(18 + n + ln));
    let rest2 = json.skip(24 + n + ln);
    assert(rest2 =~= lng + "}"@);
    assert forall|k: int| 0 <= k < lng.len() implies is_number_char(#[trigger] rest2[k]) by {
        assert(rest2[k] == lng[k]);
    }
    assert(rest2[lng.len() as int] == '}');
    lemma_number_end_is(rest2, 0, lng.len() as int);
    assert(rest2.take(lng.len() as int) =~= lng);
}

} // verus!
