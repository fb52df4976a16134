//! Texts, labels and colours shown for schools: the card, the detail page,
//! the map popup and the rating entries.
use vstd::prelude::*;

use crate::i18n::{fill, placeholder, profile_label, profile_label_of, str_views, t, t_fmt, ui_text, Language};
use crate::models::{RatingEntry, School};
use crate::text::{
    ascii_lower, ascii_text, ascii_upper, chars_of, concat, decimal, decimal_string, join, join_with, owned,
    split_char, split_on, str_eq, string_of, views,
};

verus! {

broadcast use vstd::string::group_string_axioms;

// ---------------------------------------------------------------------------
// Dates, domains, source names

/// An ISO date `YYYY-MM-DD` as `DD.MM.YYYY`; any text that does not have
/// exactly three `-`-separated parts is kept as it is.
pub open spec fn date_display(iso: Seq<char>) -> Seq<char> {
    let parts = split_on(iso, '-');
    if parts.len() == 3 {
        parts[2] + "."@ + parts[1] + "."@ + parts[0]
    } else {
        iso
    }
}

/// Format an ISO date string (YYYY-MM-DD) to DD.MM.YYYY.
pub fn format_date(iso: &str) -> (r: String)
    ensures
        r@ == date_display(iso@),
{
    let parts = split_char(iso, '-');
    if parts.len() == 3 {
        assert(views(parts@)[0] == parts@[0]@);
        assert(views(parts@)[1] == parts@[1]@);
        assert(views(parts@)[2] == parts@[2]@);
        let a = concat(parts[2].as_str(), ".");
        let b = concat(a.as_str(), parts[1].as_str());
        let c = concat(b.as_str(), ".");
        concat(c.as_str(), parts[0].as_str())
    } else {
        owned(iso)
    }
}

/// `s` with every leading copy of `p` removed (as `trim_start_matches`).
pub open spec fn trim_start_all(s: Seq<char>, p: Seq<char>) -> Seq<char>
    decreases s.len(),
{
    if p.len() > 0 && s.len() >= p.len() && s.take(p.len() as int) == p {
        trim_start_all(s.skip(p.len() as int), p)
    } else {
        s
    }
}

fn trim_start_chars(s: Vec<char>, p: &str) -> (r: Vec<char>)
    requires
        p@.len() > 0,
    ensures
        r@ == trim_start_all(s@, p@),
{
    let pc = chars_of(p);
    let mut start: usize = 0;
    let n = s.len();
    assert(s@.skip(0) =~= s@);
    while start <= n
        invariant
            n == s@.len(),
            pc@ == p@,
            pc@.len() > 0,
            start <= n,
            trim_start_all(s@, p@) == trim_start_all(s@.skip(start as int), p@),
        decreases n - start,
    {
        let ghost rest = s@.skip(start as int);
        if pc.len() <= n - start && crate::text::chars_eq(&s.as_slice()[start..start + pc.len()], pc.as_slice()) {
            assert(s@.subrange(start as int, start + pc@.len()) =~= rest.take(pc@.len() as int));
            assert(rest.skip(pc@.len() as int) =~= s@.skip(start + pc@.len()));
            start = start + pc.len();
        } else {
            proof {
                if rest.len() >= p@.len() {
                    assert(s@.subrange(start as int, start + pc@.len()) =~= rest.take(pc@.len() as int));
                }
            }
            let r = crate::text::chars_of(string_of(&s.as_slice()[start..n]).as_str());
            assert(s@.subrange(start as int, n as int) =~= rest);
            return r;
        }
    }
    Vec::new()
}

/// The domain of a URL for display: without a `https://`, `http://` or
/// `www.` prefix, and up to the first `/` after it (no path).
pub open spec fn domain_of(url: Seq<char>) -> Seq<char> {
    let host = trim_start_all(trim_start_all(trim_start_all(url, "https://"@), "http://"@), "www."@);
    match crate::text::first_occurrence(host, seq!['/']) {
        Some(i) => host.take(i),
        None => host,
    }
}

/// Extract just the domain from a URL for display purposes.
pub fn extract_domain(url: &str) -> (r: String)
    ensures
        r@ == domain_of(url@),
{
    proof {
        reveal_strlit("https://");
        reveal_strlit("http://");
        reveal_strlit("www.");
    }
    let a = trim_start_chars(chars_of(url), "https://");
    let b = trim_start_chars(a, "http://");
    let c = trim_start_chars(b, "www.");
    let slash: Vec<char> = vec!['/'];
    assert(slash@ =~= seq!['/']);
    match crate::text::find(c.as_slice(), slash.as_slice()) {
        Some(i) => {
            assert(crate::text::occurs_at(c@, slash@, i as int));
            let r = string_of(&c.as_slice()[0..i]);
            assert(c@.subrange(0, i as int) =~= c@.take(i as int));
            r
        },
        None => string_of(c.as_slice()),
    }
}

/// What `char::to_uppercase` gives for a character.
pub uninterp spec fn uppercase_of(c: char) -> Seq<char>;

/// `char::to_uppercase`, collected into a string.
///
/// Trusted: the result is a function of the character alone, named
/// `uppercase_of`; for an ASCII character it is that character in ASCII
/// upper case (`a`–`z` become `A`–`Z`, the others stay). Which characters
/// the Unicode mapping produces for other characters is not stated.
#[verifier::external_body]
fn uppercase(c: char) -> (r: String)
    ensures
        r@ == uppercase_of(c),
        (c as u32) < 128 ==> r@ == seq![ascii_upper(c)],
{
    c.to_uppercase().to_string()
}

/// A word with its first character in upper case.
pub open spec fn capitalized(word: Seq<char>) -> Seq<char> {
    if word.len() == 0 { word } else { uppercase_of(word[0]) + word.drop_first() }
}

/// The display name of a rating source key: words separated by `_` become
/// capitalised words separated by spaces.
pub open spec fn source_name(key: Seq<char>) -> Seq<char> {
    join_with(split_on(key, '_').map_values(|w: Seq<char>| capitalized(w)), " "@)
}

/// A word with its first character in ASCII upper case.
pub open spec fn ascii_capitalized(word: Seq<char>) -> Seq<char> {
    if word.len() == 0 { word } else { seq![ascii_upper(word[0])] + word.drop_first() }
}

/// The display name of an ASCII rating source key.
pub open spec fn ascii_source_name(key: Seq<char>) -> Seq<char> {
    join_with(split_on(key, '_').map_values(|w: Seq<char>| ascii_capitalized(w)), " "@)
}

/// Humanize a rating source key: replace underscores with spaces, capitalize each word.
pub fn humanize_source(key: &str) -> (r: String)
    ensures
        r@ == source_name(key@),
        ascii_text(key@) ==> r@ == ascii_source_name(key@),
{
    let words = split_char(key, '_');
    let mut out: Vec<String> = Vec::new();
    let mut i: usize = 0;
    proof {
        if ascii_text(key@) {
            crate::text::lemma_split_ascii(key@, '_');
        }
    }
    while i < words.len()
        invariant
            i <= words@.len(),
            views(words@) == split_on(key@, '_'),
            views(out@) == views(words@).take(i as int).map_values(|w: Seq<char>| capitalized(w)),
            ascii_text(key@) ==> forall|k: int| 0 <= k < split_on(key@, '_').len() ==> ascii_text(
                #[trigger] split_on(key@, '_')[k],
            ),
            ascii_text(key@) ==> views(out@) == views(words@).take(i as int).map_values(
                |w: Seq<char>| ascii_capitalized(w),
            ),
        decreases words@.len() - i,
    {
        let cs = chars_of(words[i].as_str());
        let w = if cs.len() == 0 {
            String::new()
        } else {
            let mut u = uppercase(cs[0]);
            let tail = string_of(&cs.as_slice()[1..cs.len()]);
            u.append(tail.as_str());
            assert(cs@.subrange(1, cs@.len() as int) =~= cs@.drop_first());
            u
        };
        assert(w@ =~= capitalized(words@[i as int]@));
        proof {
            if ascii_text(key@) {
                assert(views(words@)[i as int] == words@[i as int]@);
                assert(ascii_text(words@[i as int]@));
                if cs@.len() > 0 {
                    assert((cs@[0] as u32) < 128);
                }
                assert(w@ =~= ascii_capitalized(words@[i as int]@));
            }
        }
        let ghost before = views(out@);
        let ghost before_ascii = views(words@).take(i as int).map_values(|w: Seq<char>| ascii_capitalized(w));
        out.push(w);
        assert(views(out@) =~= before.push(capitalized(words@[i as int]@)));
        assert(views(words@).take(i + 1) =~= views(words@).take(i as int).push(words@[i as int]@));
        proof {
            if ascii_text(key@) {
                assert(views(words@).take(i + 1).map_values(|w: Seq<char>| ascii_capitalized(w)) =~= before_ascii.push(
                    ascii_capitalized(words@[i as int]@),
                ));
                assert(views(out@) =~= before.push(w@));
            }
        }
        i = i + 1;
    }
    assert(views(words@).take(words@.len() as int) =~= views(words@));
    join(out.as_slice(), " ")
}

// ---------------------------------------------------------------------------
// Labels

/// `Ja` / `Nein` / `Keine Angabe` for an optional flag.
pub fn bool_display(val: Option<bool>, lang: Language) -> (r: &'static str)
    ensures
        r@ == ui_text(
            match val {
                Some(true) => "yes"@,
                Some(false) => "no"@,
                None => "no_data"@,
            },
            lang,
        ),
{
    match val {
        Some(true) => t("yes", lang),
        Some(false) => t("no", lang),
        None => t("no_data", lang),
    }
}

/// The key of the label of a school's operator: private, public (spelled
/// with or without umlaut), unknown, or no data.
pub open spec fn traeger_key(traeger: Option<Seq<char>>) -> Seq<char> {
    match traeger {
        Some(t) => if t == "privat"@ {
            "private_school"@
        } else if t == "oeffentlich"@ || t == "öffentlich"@ {
            "public_school"@
        } else {
            "unknown"@
        },
        None => "no_data"@,
    }
}

/// The label of a school's operator.
pub fn traeger_label(traeger: &Option<String>, lang: Language) -> (r: &'static str)
    ensures
        r@ == ui_text(traeger_key(match traeger { Some(t) => Some(t@), None => None }), lang),
{
    match traeger {
        Some(tr) => if str_eq(tr.as_str(), "privat") {
            t("private_school", lang)
        } else if str_eq(tr.as_str(), "oeffentlich") || str_eq(tr.as_str(), "öffentlich") {
            t("public_school", lang)
        } else {
            t("unknown", lang)
        },
        None => t("no_data", lang),
    }
}

/// The label of the school day: all-day, half-day, or no data.
pub fn ganztag_label(ganztag: Option<bool>, lang: Language) -> (r: &'static str)
    ensures
        r@ == ui_text(
            match ganztag {
                Some(true) => "all_day_school"@,
                Some(false) => "half_day_school"@,
                None => "no_data"@,
            },
            lang,
        ),
{
    match ganztag {
        Some(true) => t("all_day_school", lang),
        Some(false) => t("half_day_school", lang),
        None => t("no_data", lang),
    }
}

/// The line with the numbers of students and teachers.
pub open spec fn student_teacher_text(students: Option<u32>, teachers: Option<u32>, lang: Language) -> Seq<char> {
    match (students, teachers) {
        (Some(s), Some(t)) => fill(
            ui_text("n_students_n_teachers"@, lang),
            seq![decimal(s as nat), decimal(t as nat)],
            2,
        ),
        (Some(s), None) => fill(ui_text("n_students"@, lang), seq![decimal(s as nat)], 1),
        (None, Some(t)) => fill(ui_text("n_teachers"@, lang), seq![decimal(t as nat)], 1),
        (None, None) => ui_text("no_data"@, lang),
    }
}

/// The line with the numbers of students and teachers, computed.
pub fn student_teacher(students: Option<u32>, teachers: Option<u32>, lang: Language) -> (r: String)
    ensures
        r@ == student_teacher_text(students, teachers, lang),
{
    match (students, teachers) {
        (Some(s), Some(te)) => {
            let a = decimal_string(s as u64);
            let b = decimal_string(te as u64);
            let args = [a.as_str(), b.as_str()];
            let r = t_fmt("n_students_n_teachers", lang, &args);
            assert(str_views(args@) =~= seq![decimal(s as nat), decimal(te as nat)]);
            r
        },
        (Some(s), None) => {
            let a = decimal_string(s as u64);
            let args = [a.as_str()];
            let r = t_fmt("n_students", lang, &args);
            assert(str_views(args@) =~= seq![decimal(s as nat)]);
            r
        },
        (None, Some(te)) => {
            let b = decimal_string(te as u64);
            let args = [b.as_str()];
            let r = t_fmt("n_teachers", lang, &args);
            assert(str_views(args@) =~= seq![decimal(te as nat)]);
            r
        },
        (None, None) => owned(t("no_data", lang)),
    }
}

// ---------------------------------------------------------------------------
// Colours

/// The badge colour of a profile on the school card.
pub open spec fn profile_color_of(profile: Seq<char>) -> Seq<char> {
    if profile == "MINT"@ {
        "#22c55e"@
    } else if profile == "bilingual_english"@ || profile == "bilingual_french"@ {
        "#f97316"@
    } else if profile == "altsprachlich"@ {
        "#ef4444"@
    } else if profile == "music"@ {
        "#a855f7"@
    } else if profile == "sports"@ {
        "#3b82f6"@
    } else {
        "#6b7280"@
    }
}

/// Returns the badge color for a given profile type.
pub fn profile_color(profile: &str) -> (r: &'static str)
    ensures
        r@ == profile_color_of(profile@),
{
    if str_eq(profile, "MINT") {
        "#22c55e"
    } else if str_eq(profile, "bilingual_english") || str_eq(profile, "bilingual_french") {
        "#f97316"
    } else if str_eq(profile, "altsprachlich") {
        "#ef4444"
    } else if str_eq(profile, "music") {
        "#a855f7"
    } else if str_eq(profile, "sports") {
        "#3b82f6"
    } else {
        "#6b7280"
    }
}

/// The pin colour of a school on the map: that of its first profile.
pub fn profile_color_for_map(profiles: &Vec<String>) -> (r: &'static str)
    ensures
        r@ == (if profiles@.len() > 0 { profile_color_of(profiles@[0]@) } else { "#6b7280"@ }),
{
    if profiles.len() > 0 {
        profile_color(profiles[0].as_str())
    } else {
        "#6b7280"
    }
}

/// What `str::to_lowercase` gives for a text.
pub uninterp spec fn lowercase_of(s: Seq<char>) -> Seq<char>;

/// `str::to_lowercase`.
///
/// Trusted: the result is a function of the text alone, named
/// `lowercase_of`; for an ASCII text it is the text in ASCII lower case
/// (`A`–`Z` become `a`–`z`, the others stay). The Unicode mapping of other
/// texts is not stated.
#[verifier::external_body]
fn lowercase(s: &str) -> (r: String)
    ensures
        r@ == lowercase_of(s@),
        ascii_text(s@) ==> r@ == s@.map_values(|c: char| ascii_lower(c)),
{
    s.to_lowercase()
}

/// The CSS class of a profile chip for a lower-cased profile name.
pub open spec fn class_of_lowered(p: Seq<char>) -> Seq<char> {
    if p == "mint"@ {
        "profile-mint"@
    } else if p == "musik"@ || p == "music"@ {
        "profile-musik"@
    } else if p == "sport"@ || p == "sports"@ {
        "profile-sport"@
    } else if p == "bilingual"@ {
        "profile-bilingual"@
    } else if p == "altsprachlich"@ {
        "profile-altsprachlich"@
    } else {
        "profile-other"@
    }
}

/// The CSS class of a profile chip on the detail page, by the lower-cased
/// profile name.
pub open spec fn profile_class_of(profile: Seq<char>) -> Seq<char> {
    class_of_lowered(lowercase_of(profile))
}

/// Map a profile keyword to a CSS color class.
pub fn profile_class(profile: &str) -> (r: &'static str)
    ensures
        r@ == profile_class_of(profile@),
        ascii_text(profile@) ==> r@ == class_of_lowered(profile@.map_values(|c: char| ascii_lower(c))),
{
    let l = lowercase(profile);
    let p = l.as_str();
    if str_eq(p, "mint") {
        "profile-mint"
    } else if str_eq(p, "musik") || str_eq(p, "music") {
        "profile-musik"
    } else if str_eq(p, "sport") || str_eq(p, "sports") {
        "profile-sport"
    } else if str_eq(p, "bilingual") {
        "profile-bilingual"
    } else if str_eq(p, "altsprachlich") {
        "profile-altsprachlich"
    } else {
        "profile-other"
    }
}

/// Colour of an Abitur average (thousandths): up to 1.8 green, up to 2.3
/// amber, else grey.
pub fn abitur_color(avg: u32) -> (r: &'static str)
    ensures
        r@ == (if avg <= 1800 { "#16a34a"@ } else if avg <= 2300 { "#ca8a04"@ } else { "#6b7280"@ }),
{
    if avg <= 1800 {
        "#16a34a"
    } else if avg <= 2300 {
        "#ca8a04"
    } else {
        "#6b7280"
    }
}

/// Colour of an Abitur pass rate (thousandths of a percent): from 98%
/// green, from 90% amber, else red.
pub fn pass_rate_color(rate: u32) -> (r: &'static str)
    ensures
        r@ == (if rate >= 98000 { "#16a34a"@ } else if rate >= 90000 { "#ca8a04"@ } else { "#dc2626"@ }),
{
    if rate >= 98000 {
        "#16a34a"
    } else if rate >= 90000 {
        "#ca8a04"
    } else {
        "#dc2626"
    }
}

/// How sought-after a school is.
#[derive(Clone, Copy, Debug, PartialEq, Eq, Structural)]
pub enum DemandLevel {
    /// No more applicants than places.
    Undersubscribed,
    /// More applicants than places, up to one and a half times.
    Oversubscribed,
    /// More than one and a half applicants per place.
    HighlyOversubscribed,
}

/// The level of a demand ratio in thousandths.
pub open spec fn demand_level_of(ratio: u32) -> DemandLevel {
    if ratio > 1500 {
        DemandLevel::HighlyOversubscribed
    } else if ratio > 1000 {
        DemandLevel::Oversubscribed
    } else {
        DemandLevel::Undersubscribed
    }
}

/// The level of a demand ratio in thousandths.
pub fn demand_level(ratio: u32) -> (r: DemandLevel)
    ensures
        r == demand_level_of(ratio),
{
    if ratio > 1500 {
        DemandLevel::HighlyOversubscribed
    } else if ratio > 1000 {
        DemandLevel::Oversubscribed
    } else {
        DemandLevel::Undersubscribed
    }
}

/// The level of first choices against places, when no ratio is recorded:
/// by the exact quotient (with no places, any applicant is more than one
/// and a half per place, and none is not oversubscribed).
pub open spec fn demand_level_of_counts(first_choices: u32, places: u32) -> DemandLevel {
    if 2 * (first_choices as int) > 3 * (places as int) {
        DemandLevel::HighlyOversubscribed
    } else if first_choices > places {
        DemandLevel::Oversubscribed
    } else {
        DemandLevel::Undersubscribed
    }
}

/// The demand level shown on the detail page: from the recorded ratio, or
/// else from first choices and places.
pub fn admission_demand_level(ratio: Option<u32>, first_choices: u32, places: u32) -> (r: DemandLevel)
    ensures
        r == match ratio {
            Some(x) => demand_level_of(x),
            None => demand_level_of_counts(first_choices, places),
        },
{
    match ratio {
        Some(x) => demand_level(x),
        None => {
            let f = first_choices as u64;
            let p = places as u64;
            if 2 * f > 3 * p {
                DemandLevel::HighlyOversubscribed
            } else if f > p {
                DemandLevel::Oversubscribed
            } else {
                DemandLevel::Undersubscribed
            }
        },
    }
}

/// The colour of a demand level: red, amber, green.
pub fn demand_color(level: DemandLevel) -> (r: &'static str)
    ensures
        r@ == match level {
            DemandLevel::HighlyOversubscribed => "#dc2626"@,
            DemandLevel::Oversubscribed => "#ca8a04"@,
            DemandLevel::Undersubscribed => "#16a34a"@,
        },
{
    match level {
        DemandLevel::HighlyOversubscribed => "#dc2626",
        DemandLevel::Oversubscribed => "#ca8a04",
        DemandLevel::Undersubscribed => "#16a34a",
    }
}

/// The text key of the demand status.
pub fn demand_status_key(level: DemandLevel) -> (r: &'static str)
    ensures
        r@ == (if level == DemandLevel::Undersubscribed {
            "demand_undersubscribed"@
        } else {
            "demand_oversubscribed"@
        }),
{
    match level {
        DemandLevel::Undersubscribed => "demand_undersubscribed",
        _ => "demand_oversubscribed",
    }
}

// ---------------------------------------------------------------------------
// School card

/// Stars of a rating (thousandths, out of five): full stars, a half star
/// from half a point of remainder, and the empty stars left of five.
pub open spec fn stars_of(score: u32) -> (u32, u32, u32) {
    let full = score / 1000;
    let half: u32 = if score % 1000 >= 500 { 1 } else { 0 };
    (full, half, (5 - full - half) as u32)
}

/// The star row of a rating no higher than five.
pub fn stars(score: u32) -> (r: (u32, u32, u32))
    requires
        score / 1000 + (if score % 1000 >= 500 { 1int } else { 0 }) <= 5,
    ensures
        r == stars_of(score),
{
    let full = score / 1000;
    let half: u32 = if score % 1000 >= 500 { 1 } else { 0 };
    (full, half, 5 - full - half)
}

/// Completeness in whole percent, rounded down.
pub fn completeness_percent(score: Option<u32>) -> (r: u32)
    ensures
        r == match score { Some(c) => c / 10, None => 0 },
{
    match score {
        Some(c) => c / 10,
        None => 0,
    }
}

/// The travel time of one mode: `N Min.`, or a dash without a time.
pub fn travel_minutes_text(minutes: Option<u32>) -> (r: String)
    ensures
        r@ == match minutes {
            Some(m) => decimal(m as nat) + " Min."@,
            None => "\u{2014}"@,
        },
{
    match minutes {
        Some(m) => {
            let d = decimal_string(m as u64);
            concat(d.as_str(), " Min.")
        },
        None => owned("\u{2014}"),
    }
}

/// The source keys of a school's ratings, sorted and without repetition.
pub fn sorted_rating_keys(ratings: &Vec<(String, RatingEntry)>) -> (r: Vec<String>)
    ensures
        crate::models::strictly_sorted(views(r@)),
        views(r@).to_set() == Set::new(|k: Seq<char>| exists|i: int| 0 <= i < ratings@.len() && ratings@[i].0@ == k),
{
    let mut keys: Vec<String> = Vec::new();
    let mut i: usize = 0;
    while i < ratings.len()
        invariant
            i <= ratings@.len(),
            views(keys@) == ratings@.take(i as int).map_values(|p: (String, RatingEntry)| p.0@),
        decreases ratings@.len() - i,
    {
        let ghost before = views(keys@);
        keys.push(ratings[i].0.clone());
        assert(views(keys@) =~= before.push(ratings@[i as int].0@));
        assert(ratings@.take(i + 1).map_values(|p: (String, RatingEntry)| p.0@) =~= ratings@.take(
            i as int,
        ).map_values(|p: (String, RatingEntry)| p.0@).push(ratings@[i as int].0@));
        i = i + 1;
    }
    assert(ratings@.take(ratings@.len() as int) =~= ratings@);
    let mut r: Vec<String> = Vec::new();
    crate::models::insert_all_sorted(&mut r, &keys);
    proof {
        let ks = ratings@.map_values(|p: (String, RatingEntry)| p.0@);
        assert(views(r@).to_set() =~= Set::<Seq<char>>::empty().union(ks.to_set()));
        assert forall|k: Seq<char>| ks.to_set().contains(k) <==> (exists|i: int|
            0 <= i < ratings@.len() && ratings@[i].0@ == k) by {
            if ks.to_set().contains(k) {
                let i = choose|i: int| 0 <= i < ks.len() && ks[i] == k;
                assert(ratings@[i].0@ == k);
            }
            if exists|i: int| 0 <= i < ratings@.len() && ratings@[i].0@ == k {
                let i = choose|i: int| 0 <= i < ratings@.len() && ratings@[i].0@ == k;
                assert(ks[i] == k);
            }
        }
    }
    r
}

/// The data sources joined by commas, or "no data" when there are none.
pub fn sources_display(sources: &Vec<String>, lang: Language) -> (r: String)
    ensures
        r@ == (if sources@.len() == 0 {
            ui_text("no_data"@, lang)
        } else {
            join_with(views(sources@), ", "@)
        }),
{
    if sources.len() == 0 {
        owned(t("no_data", lang))
    } else {
        join(sources.as_slice(), ", ")
    }
}

// ---------------------------------------------------------------------------
// Student numbers for the district table

/// Digits grouped in threes from the right, separated by commas.
pub open spec fn grouped(d: Seq<char>) -> Seq<char>
    decreases d.len(),
{
    if d.len() <= 3 {
        d
    } else {
        grouped(d.take(d.len() - 3)) + ","@ + d.skip(d.len() - 3)
    }
}

fn group_digits(d: &[char]) -> (r: Vec<char>)
    ensures
        r@ == grouped(d@),
    decreases d@.len(),
{
    let n = d.len();
    if n <= 3 {
        let mut r: Vec<char> = Vec::new();
        let mut i: usize = 0;
        while i < n
            invariant
                n == d@.len(),
                i <= n,
                r@ == d@.take(i as int),
            decreases n - i,
        {
            r.push(d[i]);
            i = i + 1;
            assert(r@ =~= d@.take(i as int));
        }
        assert(d@.take(n as int) =~= d@);
        r
    } else {
        let mut r = group_digits(&d[0..n - 3]);
        assert(d@.subrange(0, n - 3) =~= d@.take(n - 3));
        let ghost head = r@;
        r.push(',');
        r.push(d[n - 3]);
        r.push(d[n - 2]);
        r.push(d[n - 1]);
        proof {
            reveal_strlit(",");
            assert(r@ =~= grouped(d@));
        }
        r
    }
}

/// Format student count with comma separators.
pub fn format_students(n: u64) -> (r: String)
    ensures
        r@ == grouped(decimal(n as nat)),
{
    let d = decimal_string(n);
    let cs = chars_of(d.as_str());
    let g = group_digits(cs.as_slice());
    string_of(g.as_slice())
}

// ---------------------------------------------------------------------------
// Map popup

/// The badge of one profile in the map popup.
pub open spec fn popup_badge(profile: Seq<char>, lang: Language) -> Seq<char> {
    "<span style='background:"@ + profile_color_of(profile)
        + ";color:#fff;padding:1px 6px;border-radius:8px;font-size:0.7rem;margin:2px;display:inline-block'>"@
        + profile_label_of(profile, lang) + "</span>"@
}

/// The badges of all profiles, in order.
pub open spec fn popup_badges(profiles: Seq<String>, lang: Language) -> Seq<char>
    decreases profiles.len(),
{
    if profiles.len() == 0 {
        Seq::empty()
    } else {
        popup_badges(profiles.drop_last(), lang) + popup_badge(profiles.last()@, lang)
    }
}

/// The popup of a school marker: name, district, the early-entry note,
/// the profile badges, and the link to the detail page.
pub open spec fn popup_html(s: School, lang: Language) -> Seq<char> {
    "<div class='map-popup'><strong>"@ + s.name@ + "</strong>"@
        + "<br><span class='popup-district'>"@ + s.district@ + "</span>"@
        + (if s.accepts_after_4th_grade == Some(true) {
            "<br><span class='popup-grundstaendig'>"@ + ui_text("from_grade_5"@, lang) + "</span>"@
        } else {
            Seq::empty()
        })
        + (if s.profile@.len() > 0 {
            "<div class='popup-profiles'>"@ + popup_badges(s.profile@, lang) + "</div>"@
        } else {
            Seq::empty()
        })
        + "<br><a href='#/school/"@ + s.school_id@ + "' class='popup-detail-link'>Details &rarr;</a>"@
        + "</div>"@
}

/// Build popup HTML for a school marker.
pub fn build_popup_html(school: &School, lang: Language) -> (r: String)
    ensures
        r@ == popup_html(*school, lang),
{
    let mut html = String::new();
    html.append("<div class='map-popup'><strong>");
    html.append(school.name.as_str());
    html.append("</strong>");
    html.append("<br><span class='popup-district'>");
    html.append(school.district.as_str());
    html.append("</span>");
    let ghost after_district = html@;
    if school.accepts_after_4th_grade == Some(true) {
        html.append("<br><span class='popup-grundstaendig'>");
        html.append(t("from_grade_5", lang));
        html.append("</span>");
    }
    let ghost after_grund = html@;
    if school.profile.len() > 0 {
        html.append("<div class='popup-profiles'>");
        let ghost start = html@;
        let mut i: usize = 0;
        while i < school.profile.len()
            invariant
                i <= school.profile@.len(),
                html@ == start + popup_badges(school.profile@.take(i as int), lang),
            decreases school.profile@.len() - i,
        {
            let p = school.profile[i].as_str();
            let ghost before = html@;
            html.append("<span style='background:");
            html.append(profile_color(p));
            html.append(";color:#fff;padding:1px 6px;border-radius:8px;font-size:0.7rem;margin:2px;display:inline-block'>");
            html.append(profile_label(p, lang));
            html.append("</span>");
            assert(school.profile@.take(i + 1).drop_last() =~= school.profile@.take(i as int));
            assert(html@ =~= before + popup_badge(p@, lang));
            i = i + 1;
        }
        assert(school.profile@.take(school.profile@.len() as int) =~= school.profile@);
        html.append("</div>");
    }
    let ghost after_profiles = html@;
    html.append("<br><a href='#/school/");
    html.append(school.school_id.as_str());
    html.append("' class='popup-detail-link'>Details &rarr;</a>");
    html.append("</div>");
    assert(html@ =~= popup_html(*school, lang));
    html
}

// ---------------------------------------------------------------------------
// Map pins

/// A school's pin on the map: its position (millionths of a degree), its
/// colour and its popup.
#[derive(Clone, Debug)]
pub struct MapPin {
    pub lat: i64,
    pub lng: i64,
    pub color: &'static str,
    pub popup: String,
}

/// The plain values of a pin.
pub open spec fn pin_view(p: MapPin) -> (i64, i64, Seq<char>, Seq<char>) {
    (p.lat, p.lng, p.color@, p.popup@)
}

/// The pin of a school with a position.
pub open spec fn pin_of(s: School, lang: Language) -> (i64, i64, Seq<char>, Seq<char>) {
    let c = s.coords->0;
    (
        c.lat,
        c.lng,
        if s.profile@.len() > 0 { profile_color_of(s.profile@[0]@) } else { "#6b7280"@ },
        popup_html(s, lang),
    )
}

/// The pins of the schools that have a position, in order.
pub open spec fn pins_of(schools: Seq<School>, lang: Language) -> Seq<(i64, i64, Seq<char>, Seq<char>)>
    decreases schools.len(),
{
    if schools.len() == 0 {
        Seq::empty()
    } else {
        let pre = pins_of(schools.drop_last(), lang);
        if schools.last().coords is Some {
            pre.push(pin_of(schools.last(), lang))
        } else {
            pre
        }
    }
}

/// The pins of the listed schools: one for each school with a position.
pub fn map_pins(schools: &Vec<School>, lang: Language) -> (r: Vec<MapPin>)
    ensures
        r@.map_values(|p: MapPin| pin_view(p)) == pins_of(schools@, lang),
{
    let mut pins: Vec<MapPin> = Vec::new();
    let mut i: usize = 0;
    while i < schools.len()
        invariant
            i <= schools@.len(),
            pins@.map_values(|p: MapPin| pin_view(p)) == pins_of(schools@.take(i as int), lang),
        decreases schools@.len() - i,
    {
        let s = &schools[i];
        let ghost before = pins@.map_values(|p: MapPin| pin_view(p));
        assert(schools@.take(i + 1).drop_last() =~= schools@.take(i as int));
        assert(schools@.take(i + 1).last() == schools@[i as int]);
        match &s.coords {
            Some(c) => {
                let pin = MapPin {
                    lat: c.lat,
                    lng: c.lng,
                    color: profile_color_for_map(&s.profile),
                    popup: build_popup_html(s, lang),
                };
                pins.push(pin);
                assert(pins@.map_values(|p: MapPin| pin_view(p)) =~= before.push(pin_of(*s, lang)));
            },
            None => {},
        }
        i = i + 1;
    }
    assert(schools@.take(schools@.len() as int) =~= schools@);
    pins
}

/// How the map frames its pins.
#[derive(Clone, Copy, Debug, PartialEq, Eq, Structural)]
pub enum Framing {
    /// No pins: the default view of Berlin.
    Berlin,
    /// One pin: a close view of it.
    Single,
    /// Several pins: the bounds of all of them.
    Fit,
}

/// How the map frames a number of pins.
pub fn framing(pins: usize) -> (r: Framing)
    ensures
        r == (if pins == 0 {
            Framing::Berlin
        } else if pins == 1 {
            Framing::Single
        } else {
            Framing::Fit
        }),
{
    if pins == 0 {
        Framing::Berlin
    } else if pins == 1 {
        Framing::Single
    } else {
        Framing::Fit
    }
}

} // verus!
