//! Translations of the interface texts (German and English).
use vstd::prelude::*;

use crate::text::{chars_eq, chars_of, decimal, decimal_string, concat, replace, replace_all, str_eq};

verus! {

broadcast use vstd::string::group_string_axioms;

/// Interface language.
#[derive(Clone, Copy, PartialEq, Eq, Debug, Structural)]
pub enum Language {
    De,
    En,
}

impl Language {
    /// The language code (`de`, `en`).
    pub fn code(self) -> (r: &'static str)
        ensures
            r@ == (match self { Language::De => "de"@, Language::En => "en"@ }),
    {
        match self {
            Language::De => "de",
            Language::En => "en",
        }
    }
}

/// The stored language preference: `en` selects English; any other value,
/// or none, German.
pub fn language_from_stored(value: Option<&str>) -> (r: Language)
    ensures
        r == (match value {
            Some(v) => if v@ == "en"@ { Language::En } else { Language::De },
            None => Language::De,
        }),
{
    match value {
        Some(v) => if str_eq(v, "en") { Language::En } else { Language::De },
        None => Language::De,
    }
}

/// The document title shown in a language.
pub fn document_title(lang: Language) -> (r: &'static str)
    ensures
        r@ == pick(lang, "Berliner Gymnasien Vergleich"@, "Berlin Gymnasien Comparison"@),
{
    choose_text(lang, "Berliner Gymnasien Vergleich", "Berlin Gymnasien Comparison")
}

/// The German or the English text.
pub open spec fn pick(lang: Language, de: Seq<char>, en: Seq<char>) -> Seq<char> {
    match lang {
        Language::De => de,
        Language::En => en,
    }
}

fn choose_text(lang: Language, de: &'static str, en: &'static str) -> (r: &'static str)
    ensures
        r@ == pick(lang, de@, en@),
{
    match lang {
        Language::De => de,
        Language::En => en,
    }
}

fn is(k: &Vec<char>, lit: &str) -> (r: bool)
    ensures
        r == (k@ == lit@),
{
    let l = chars_of(lit);
    chars_eq(k.as_slice(), l.as_slice())
}

/// The text of an interface key in a language; an unknown key is its own
/// text.
pub open spec fn ui_text(key: Seq<char>, lang: Language) -> Seq<char> {
    if key == "no_data"@ {
        pick(lang, "Keine Angabe"@, "No data"@)
    } else if key == "yes"@ {
        pick(lang, "Ja"@, "Yes"@)
    } else if key == "no"@ {
        pick(lang, "Nein"@, "No"@)
    } else if key == "all"@ {
        pick(lang, "Alle"@, "All"@)
    } else if key == "unknown"@ {
        pick(lang, "Unbekannt"@, "Unknown"@)
    } else if key == "address_placeholder"@ {
        pick(lang, "Adresse eingeben"@, "Enter address"@)
    } else if key == "calculating"@ {
        pick(lang, " Berechne..."@, " Calculating..."@)
    } else if key == "searching"@ {
        pick(lang, " Suche..."@, " Searching..."@)
    } else if key == "search"@ {
        pick(lang, "Suchen"@, "Search"@)
    } else if key == "clear_address"@ {
        pick(lang, "Adresse loeschen"@, "Clear address"@)
    } else if key == "show_hide_filters"@ {
        pick(lang, "Filter anzeigen / verbergen"@, "Show / hide filters"@)
    } else if key == "filters"@ {
        pick(lang, "Filter"@, "Filters"@)
    } else if key == "district"@ {
        pick(lang, "Bezirk"@, "District"@)
    } else if key == "profile"@ {
        pick(lang, "Profil"@, "Profile"@)
    } else if key == "grundstaendig"@ {
        pick(lang, "Grundstaendig (ab Klasse 5)"@, "Starting from grade 5"@)
    } else if key == "foreign_language"@ {
        pick(lang, "Fremdsprache"@, "Foreign language"@)
    } else if key == "ganztag"@ {
        pick(lang, "Ganztag"@, "All-day school"@)
    } else if key == "clear_all_filters"@ {
        pick(lang, "Alle Filter loeschen"@, "Clear all filters"@)
    } else if key == "sort_by"@ {
        pick(lang, "Sortieren:"@, "Sort:"@)
    } else if key == "name_az"@ {
        pick(lang, "Name (A-Z)"@, "Name (A-Z)"@)
    } else if key == "student_count_sort"@ {
        pick(lang, "Schueleranzahl"@, "Student count"@)
    } else if key == "travel_walk_sort"@ {
        pick(lang, "Fahrzeit (zu Fuss)"@, "Travel time (walking)"@)
    } else if key == "travel_bike_sort"@ {
        pick(lang, "Fahrzeit (Fahrrad)"@, "Travel time (bicycle)"@)
    } else if key == "travel_car_sort"@ {
        pick(lang, "Fahrzeit (Auto)"@, "Travel time (car)"@)
    } else if key == "list"@ {
        pick(lang, "Liste"@, "List"@)
    } else if key == "map"@ {
        pick(lang, "Karte"@, "Map"@)
    } else if key == "from_grade_5"@ {
        pick(lang, "ab Klasse 5"@, "from grade 5"@)
    } else if key == "calculating_travel"@ {
        pick(lang, "Berechne Fahrzeit..."@, "Calculating travel time..."@)
    } else if key == "on_foot"@ {
        pick(lang, "Zu Fuss"@, "On foot"@)
    } else if key == "bicycle"@ {
        pick(lang, "Fahrrad"@, "Bicycle"@)
    } else if key == "car"@ {
        pick(lang, "Auto"@, "Car"@)
    } else if key == "no_travel_time"@ {
        pick(lang, "Keine Fahrzeit verfuegbar"@, "No travel time available"@)
    } else if key == "no_rating"@ {
        pick(lang, "Keine Bewertung"@, "No rating"@)
    } else if key == "berlin_gymnasien"@ {
        pick(lang, "Berliner Gymnasien"@, "Berlin Gymnasien"@)
    } else if key == "back_to_list"@ {
        pick(lang, "\u{2190} Zurueck zur Liste"@, "\u{2190} Back to list"@)
    } else if key == "school_not_found"@ {
        pick(lang, "Schule nicht gefunden"@, "School not found"@)
    } else if key == "school_not_found_desc"@ {
        pick(lang, "Die angeforderte Schule konnte nicht gefunden werden."@, "The requested school could not be found."@)
    } else if key == "to_overview"@ {
        pick(lang, "Zur Schuluebersicht"@, "To school overview"@)
    } else if key == "public_school"@ {
        pick(lang, "Oeffentlich"@, "Public"@)
    } else if key == "private_school"@ {
        pick(lang, "Privat"@, "Private"@)
    } else if key == "all_day_school"@ {
        pick(lang, "Ganztagsschule"@, "All-day school"@)
    } else if key == "half_day_school"@ {
        pick(lang, "Halbtagsschule"@, "Half-day school"@)
    } else if key == "grade_average"@ {
        pick(lang, "Notendurchschnitt"@, "Grade average"@)
    } else if key == "oversubscribed"@ {
        pick(lang, "Ueberbucht"@, "Oversubscribed"@)
    } else if key == "selection_process"@ {
        pick(lang, "Auswahlverfahren"@, "Selection process"@)
    } else if key == "trial_class"@ {
        pick(lang, "Probeunterricht"@, "Trial class"@)
    } else if key == "entrance_test"@ {
        pick(lang, "Aufnahmetest"@, "Entrance test"@)
    } else if key == "notes"@ {
        pick(lang, "Hinweise"@, "Notes"@)
    } else if key == "profile_languages"@ {
        pick(lang, "Profil & Sprachen"@, "Profile & Languages"@)
    } else if key == "language_col"@ {
        pick(lang, "Sprache"@, "Language"@)
    } else if key == "from_grade"@ {
        pick(lang, "Ab Klasse"@, "From grade"@)
    } else if key == "admission"@ {
        pick(lang, "Aufnahmebedingungen"@, "Admission requirements"@)
    } else if key == "ratings"@ {
        pick(lang, "Bewertungen"@, "Ratings"@)
    } else if key == "open_day"@ {
        pick(lang, "Tag der offenen Tuer"@, "Open day"@)
    } else if key == "contact"@ {
        pick(lang, "Kontakt"@, "Contact"@)
    } else if key == "telephone"@ {
        pick(lang, "Telefon"@, "Phone"@)
    } else if key == "email_label"@ {
        pick(lang, "E-Mail"@, "Email"@)
    } else if key == "data_provenance"@ {
        pick(lang, "Datenherkunft"@, "Data provenance"@)
    } else if key == "last_updated"@ {
        pick(lang, "Letzte Aktualisierung"@, "Last updated"@)
    } else if key == "data_sources"@ {
        pick(lang, "Datenquellen"@, "Data sources"@)
    } else if key == "completeness_label"@ {
        pick(lang, "Vollstaendigkeit"@, "Completeness"@)
    } else if key == "page_not_found"@ {
        pick(lang, "Seite nicht gefunden"@, "Page not found"@)
    } else if key == "page_not_found_desc"@ {
        pick(lang, "Die angeforderte Seite existiert nicht."@, "The requested page does not exist."@)
    } else if key == "to_home"@ {
        pick(lang, "Zur Startseite"@, "To home page"@)
    } else if key == "n_students"@ {
        pick(lang, "{0} Schueler"@, "{0} students"@)
    } else if key == "pct_complete"@ {
        pick(lang, "{0}% vollstaendig"@, "{0}% complete"@)
    } else if key == "filters_active"@ {
        pick(lang, "{0} Filter aktiv"@, "{0} filters active"@)
    } else if key == "n_reviews"@ {
        pick(lang, "({0} Bewertungen)"@, "({0} reviews)"@)
    } else if key == "as_of"@ {
        pick(lang, "Stand: {0}"@, "As of: {0}"@)
    } else if key == "n_schools_found"@ {
        pick(lang, "{0} Schulen gefunden"@, "{0} schools found"@)
    } else if key == "calculating_travel_times"@ {
        pick(lang, " Fahrzeiten werden berechnet..."@, " Travel times are being calculated..."@)
    } else if key == "n_students_n_teachers"@ {
        pick(lang, "{0} Schueler / {1} Lehrkraefte"@, "{0} students / {1} teachers"@)
    } else if key == "n_teachers"@ {
        pick(lang, "{0} Lehrkraefte"@, "{0} teachers"@)
    } else if key == "grade_n"@ {
        pick(lang, "Klasse {0}"@, "Grade {0}"@)
    } else if key == "abitur_avg"@ {
        pick(lang, "Abiturdurchschnitt: {0}"@, "Abitur average: {0}"@)
    } else {
        key
    }
}

/// The text of an interface key in a language.
#[verifier::rlimit(50)]
pub fn t(key: &'static str, lang: Language) -> (r: &'static str)
    ensures
        r@ == ui_text(key@, lang),
{
    let k = chars_of(key);
    if is(&k, "no_data") {
        choose_text(lang, "Keine Angabe", "No data")
    } else if is(&k, "yes") {
        choose_text(lang, "Ja", "Yes")
    } else if is(&k, "no") {
        choose_text(lang, "Nein", "No")
    } else if is(&k, "all") {
        choose_text(lang, "Alle", "All")
    } else if is(&k, "unknown") {
        choose_text(lang, "Unbekannt", "Unknown")
    } else if is(&k, "address_placeholder") {
        choose_text(lang, "Adresse eingeben", "Enter address")
    } else if is(&k, "calculating") {
        choose_text(lang, " Berechne...", " Calculating...")
    } else if is(&k, "searching") {
        choose_text(lang, " Suche...", " Searching...")
    } else if is(&k, "search") {
        choose_text(lang, "Suchen", "Search")
    } else if is(&k, "clear_address") {
        choose_text(lang, "Adresse loeschen", "Clear address")
    } else if is(&k, "show_hide_filters") {
        choose_text(lang, "Filter anzeigen / verbergen", "Show / hide filters")
    } else if is(&k, "filters") {
        choose_text(lang, "Filter", "Filters")
    } else if is(&k, "district") {
        choose_text(lang, "Bezirk", "District")
    } else if is(&k, "profile") {
        choose_text(lang, "Profil", "Profile")
    } else if is(&k, "grundstaendig") {
        choose_text(lang, "Grundstaendig (ab Klasse 5)", "Starting from grade 5")
    } else if is(&k, "foreign_language") {
        choose_text(lang, "Fremdsprache", "Foreign language")
    } else if is(&k, "ganztag") {
        choose_text(lang, "Ganztag", "All-day school")
    } else if is(&k, "clear_all_filters") {
        choose_text(lang, "Alle Filter loeschen", "Clear all filters")
    } else if is(&k, "sort_by") {
        choose_text(lang, "Sortieren:", "Sort:")
    } else if is(&k, "name_az") {
        choose_text(lang, "Name (A-Z)", "Name (A-Z)")
    } else if is(&k, "student_count_sort") {
        choose_text(lang, "Schueleranzahl", "Student count")
    } else if is(&k, "travel_walk_sort") {
        choose_text(lang, "Fahrzeit (zu Fuss)", "Travel time (walking)")
    } else if is(&k, "travel_bike_sort") {
        choose_text(lang, "Fahrzeit (Fahrrad)", "Travel time (bicycle)")
    } else if is(&k, "travel_car_sort") {
        choose_text(lang, "Fahrzeit (Auto)", "Travel time (car)")
    } else if is(&k, "list") {
        choose_text(lang, "Liste", "List")
    } else if is(&k, "map") {
        choose_text(lang, "Karte", "Map")
    } else if is(&k, "from_grade_5") {
        choose_text(lang, "ab Klasse 5", "from grade 5")
    } else if is(&k, "calculating_travel") {
        choose_text(lang, "Berechne Fahrzeit...", "Calculating travel time...")
    } else if is(&k, "on_foot") {
        choose_text(lang, "Zu Fuss", "On foot")
    } else if is(&k, "bicycle") {
        choose_text(lang, "Fahrrad", "Bicycle")
    } else if is(&k, "car") {
        choose_text(lang, "Auto", "Car")
    } else if is(&k, "no_travel_time") {
        choose_text(lang, "Keine Fahrzeit verfuegbar", "No travel time available")
    } else if is(&k, "no_rating") {
        choose_text(lang, "Keine Bewertung", "No rating")
    } else if is(&k, "berlin_gymnasien") {
        choose_text(lang, "Berliner Gymnasien", "Berlin Gymnasien")
    } else if is(&k, "back_to_list") {
        choose_text(lang, "\u{2190} Zurueck zur Liste", "\u{2190} Back to list")
    } else if is(&k, "school_not_found") {
        choose_text(lang, "Schule nicht gefunden", "School not found")
    } else if is(&k, "school_not_found_desc") {
        choose_text(lang, "Die angeforderte Schule konnte nicht gefunden werden.", "The requested school could not be found.")
    } else if is(&k, "to_overview") {
        choose_text(lang, "Zur Schuluebersicht", "To school overview")
    } else if is(&k, "public_school") {
        choose_text(lang, "Oeffentlich", "Public")
    } else if is(&k, "private_school") {
        choose_text(lang, "Privat", "Private")
    } else if is(&k, "all_day_school") {
        choose_text(lang, "Ganztagsschule", "All-day school")
    } else if is(&k, "half_day_school") {
        choose_text(lang, "Halbtagsschule", "Half-day school")
    } else if is(&k, "grade_average") {
        choose_text(lang, "Notendurchschnitt", "Grade average")
    } else if is(&k, "oversubscribed") {
        choose_text(lang, "Ueberbucht", "Oversubscribed")
    } else if is(&k, "selection_process") {
        choose_text(lang, "Auswahlverfahren", "Selection process")
    } else if is(&k, "trial_class") {
        choose_text(lang, "Probeunterricht", "Trial class")
    } else if is(&k, "entrance_test") {
        choose_text(lang, "Aufnahmetest", "Entrance test")
    } else if is(&k, "notes") {
        choose_text(lang, "Hinweise", "Notes")
    } else if is(&k, "profile_languages") {
        choose_text(lang, "Profil & Sprachen", "Profile & Languages")
    } else if is(&k, "language_col") {
        choose_text(lang, "Sprache", "Language")
    } else if is(&k, "from_grade") {
        choose_text(lang, "Ab Klasse", "From grade")
    } else if is(&k, "admission") {
        choose_text(lang, "Aufnahmebedingungen", "Admission requirements")
    } else if is(&k, "ratings") {
        choose_text(lang, "Bewertungen", "Ratings")
    } else if is(&k, "open_day") {
        choose_text(lang, "Tag der offenen Tuer", "Open day")
    } else if is(&k, "contact") {
        choose_text(lang, "Kontakt", "Contact")
    } else if is(&k, "telephone") {
        choose_text(lang, "Telefon", "Phone")
    } else if is(&k, "email_label") {
        choose_text(lang, "E-Mail", "Email")
    } else if is(&k, "data_provenance") {
        choose_text(lang, "Datenherkunft", "Data provenance")
    } else if is(&k, "last_updated") {
        choose_text(lang, "Letzte Aktualisierung", "Last updated")
    } else if is(&k, "data_sources") {
        choose_text(lang, "Datenquellen", "Data sources")
    } else if is(&k, "completeness_label") {
        choose_text(lang, "Vollstaendigkeit", "Completeness")
    } else if is(&k, "page_not_found") {
        choose_text(lang, "Seite nicht gefunden", "Page not found")
    } else if is(&k, "page_not_found_desc") {
        choose_text(lang, "Die angeforderte Seite existiert nicht.", "The requested page does not exist.")
    } else if is(&k, "to_home") {
        choose_text(lang, "Zur Startseite", "To home page")
    } else if is(&k, "n_students") {
        choose_text(lang, "{0} Schueler", "{0} students")
    } else if is(&k, "pct_complete") {
        choose_text(lang, "{0}% vollstaendig", "{0}% complete")
    } else if is(&k, "filters_active") {
        choose_text(lang, "{0} Filter aktiv", "{0} filters active")
    } else if is(&k, "n_reviews") {
        choose_text(lang, "({0} Bewertungen)", "({0} reviews)")
    } else if is(&k, "as_of") {
        choose_text(lang, "Stand: {0}", "As of: {0}")
    } else if is(&k, "n_schools_found") {
        choose_text(lang, "{0} Schulen gefunden", "{0} schools found")
    } else if is(&k, "calculating_travel_times") {
        choose_text(lang, " Fahrzeiten werden berechnet...", " Travel times are being calculated...")
    } else if is(&k, "n_students_n_teachers") {
        choose_text(lang, "{0} Schueler / {1} Lehrkraefte", "{0} students / {1} teachers")
    } else if is(&k, "n_teachers") {
        choose_text(lang, "{0} Lehrkraefte", "{0} teachers")
    } else if is(&k, "grade_n") {
        choose_text(lang, "Klasse {0}", "Grade {0}")
    } else if is(&k, "abitur_avg") {
        choose_text(lang, "Abiturdurchschnitt: {0}", "Abitur average: {0}")
    } else {
        key
    }
}

/// The placeholder for argument `i`: `{i}`.
pub open spec fn placeholder(i: nat) -> Seq<char> {
    seq!['{'] + decimal(i) + seq!['}']
}

/// `template` with the placeholders of the first `n` arguments replaced in
/// turn, `{0}` first (a replacement text is itself subject to the later
/// replacements).
pub open spec fn fill(template: Seq<char>, args: Seq<Seq<char>>, n: nat) -> Seq<char>
    decreases n,
{
    if n == 0 {
        template
    } else {
        replace_all(fill(template, args, (n - 1) as nat), placeholder((n - 1) as nat), args[n - 1])
    }
}

/// The views of a slice of string slices.
pub open spec fn str_views(args: Seq<&str>) -> Seq<Seq<char>> {
    args.map_values(|a: &str| a@)
}

fn placeholder_string(i: u64) -> (r: String)
    ensures
        r@ == placeholder(i as nat),
{
    let mut r = String::new();
    crate::text::push_char(&mut r, '{');
    let d = decimal_string(i);
    r.append(d.as_str());
    crate::text::push_char(&mut r, '}');
    assert(r@ =~= placeholder(i as nat));
    r
}

/// The text of a key with its numbered placeholders ({0}, {1}, ...) filled.
pub fn t_fmt(key: &'static str, lang: Language, args: &[&str]) -> (r: String)
    ensures
        r@ == fill(ui_text(key@, lang), str_views(args@), args@.len()),
{
    let template = t(key, lang);
    let mut result = crate::text::owned(template);
    let mut i: usize = 0;
    while i < args.len()
        invariant
            i <= args@.len(),
            result@ == fill(template@, str_views(args@), i as nat),
        decreases args@.len() - i,
    {
        let ph = placeholder_string(i as u64);
        assert(ph@.len() > 0);
        result = replace(result.as_str(), ph.as_str(), args[i]);
        i = i + 1;
    }
    result
}

/// The label of a profile code: known codes get a display name, any other
/// code is shown as it is.
pub open spec fn profile_label_of(profile: Seq<char>, lang: Language) -> Seq<char> {
    if profile == "MINT"@ {
        "MINT"@
    } else if profile == "bilingual_english"@ {
        "Bilingual EN"@
    } else if profile == "bilingual_french"@ {
        "Bilingual FR"@
    } else if profile == "altsprachlich"@ {
        pick(lang, "Altsprachlich"@, "Classical Languages"@)
    } else if profile == "music"@ {
        pick(lang, "Musik"@, "Music"@)
    } else if profile == "sports"@ {
        pick(lang, "Sport"@, "Sports"@)
    } else {
        profile
    }
}

/// The human-readable label of a profile code.
pub fn profile_label<'a>(profile: &'a str, lang: Language) -> (r: &'a str)
    ensures
        r@ == profile_label_of(profile@, lang),
{
    if str_eq(profile, "MINT") {
        "MINT"
    } else if str_eq(profile, "bilingual_english") {
        "Bilingual EN"
    } else if str_eq(profile, "bilingual_french") {
        "Bilingual FR"
    } else if str_eq(profile, "altsprachlich") {
        choose_text(lang, "Altsprachlich", "Classical Languages")
    } else if str_eq(profile, "music") {
        choose_text(lang, "Musik", "Music")
    } else if str_eq(profile, "sports") {
        choose_text(lang, "Sport", "Sports")
    } else {
        profile
    }
}

} // verus!
