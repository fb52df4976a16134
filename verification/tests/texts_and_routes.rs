use berlin_gymnasien::routing::{BIKE_COSTING, CAR_COSTING, MATRIX_URL, WALK_COSTING};
use berlin_gymnasien::address_state::{extract_number_text, extract_string_field, saved_address_json, STORAGE_KEY};
use berlin_gymnasien::hash_router::{hash_url, location_changes, parse_hash, parse_query_pairs, queries_equal, route_of, split_once, QueryMap, Route};
use berlin_gymnasien::i18n::{document_title, language_from_stored, profile_label, t, t_fmt, Language};
use berlin_gymnasien::text::{decimal_string, find, join, replace, split_char, str_eq};

fn s(v: &[&str]) -> Vec<String> {
    v.iter().map(|x| x.to_string()).collect()
}

#[test]
fn interface_texts() {
    assert_eq!(t("no_data", Language::De), "Keine Angabe");
    assert_eq!(t("no_data", Language::En), "No data");
    assert_eq!(t("back_to_list", Language::En), "\u{2190} Back to list");
    assert_eq!(t("sort_by", Language::De), "Sortieren:");
    assert_eq!(t("abitur_pass_rate", Language::De), "abitur_pass_rate");
    assert_eq!(Language::De.code(), "de");
    assert_eq!(Language::En.code(), "en");
    assert_eq!(document_title(Language::En), "Berlin Gymnasien Comparison");
    assert_eq!(language_from_stored(Some("en")), Language::En);
    assert_eq!(language_from_stored(Some("fr")), Language::De);
    assert_eq!(language_from_stored(None), Language::De);
}

#[test]
fn templates_are_filled() {
    assert_eq!(t_fmt("n_students", Language::De, &["812"]), "812 Schueler");
    assert_eq!(t_fmt("n_students_n_teachers", Language::En, &["812", "64"]), "812 students / 64 teachers");
    assert_eq!(t_fmt("as_of", Language::De, &[]), "Stand: {0}");
    // a replacement text is itself subject to later replacements
    assert_eq!(t_fmt("n_students_n_teachers", Language::En, &["{1}", "x"]), "x students / x teachers");
}

#[test]
fn profile_labels() {
    assert_eq!(profile_label("MINT", Language::De), "MINT");
    assert_eq!(profile_label("bilingual_english", Language::En), "Bilingual EN");
    assert_eq!(profile_label("altsprachlich", Language::En), "Classical Languages");
    assert_eq!(profile_label("music", Language::De), "Musik");
    assert_eq!(profile_label("theater", Language::De), "theater");
}

#[test]
fn text_utilities() {
    assert_eq!(decimal_string(0), "0");
    assert_eq!(decimal_string(1234567), "1234567");
    assert_eq!(split_char("a,b,,c", ','), s(&["a", "b", "", "c"]));
    assert_eq!(split_char("", ','), s(&[""]));
    assert_eq!(join(&s(&["a", "b", "c"]), ", "), "a, b, c");
    assert_eq!(join(&s(&[]), ","), "");
    assert_eq!(replace("a\"b\"", "\"", "\\\""), "a\\\"b\\\"");
    assert_eq!(replace("aaa", "aa", "b"), "ba");
    let h: Vec<char> = "hello".chars().collect();
    let p: Vec<char> = "ll".chars().collect();
    assert_eq!(find(&h, &p), Some(2));
    let q: Vec<char> = "x".chars().collect();
    assert_eq!(find(&h, &q), None);
    assert!(str_eq("ä", "ä"));
    assert!(!str_eq("a", "ab"));
}

#[test]
fn hash_paths_and_queries() {
    let (path, q) = parse_hash("#/school/123");
    assert_eq!(path, "/school/123");
    assert!(q.entries.is_empty());
    let (path, _) = parse_hash("");
    assert_eq!(path, "/");
    let (path, _) = parse_hash("#");
    assert_eq!(path, "/");
    let pairs = parse_query_pairs("district=Mitte&&view=map&=x&flag&a=b=c");
    let expect: Vec<(String, String)> = vec![
        ("district".into(), "Mitte".into()),
        ("view".into(), "map".into()),
        ("flag".into(), "".into()),
        ("a".into(), "b=c".into()),
    ];
    assert_eq!(pairs, expect);
    assert_eq!(split_once("a?b?c", '?'), Some(("a".to_string(), "b?c".to_string())));
    assert_eq!(split_once("abc", '?'), None);
    assert_eq!(hash_url("/school/1"), "#/school/1");
    assert_eq!(hash_url("#/x"), "#/x");
}

#[test]
fn query_maps_compare_by_values() {
    let mut a = QueryMap::new();
    a.insert("x".into(), "1".into());
    a.insert("y".into(), "2".into());
    let mut b = QueryMap::new();
    b.insert("y".into(), "2".into());
    b.insert("x".into(), "0".into());
    b.insert("x".into(), "1".into());
    assert_eq!(b.get("x"), Some("1".to_string()));
    assert!(queries_equal(&a, &b));
    let mut c = QueryMap::new();
    c.insert("x".into(), "1".into());
    assert!(!queries_equal(&a, &c));
    assert_eq!(location_changes(&"/".to_string(), &a, &"/".to_string(), &b), (false, false));
    assert_eq!(location_changes(&"/".to_string(), &a, &"/s".to_string(), &c), (true, true));
}

#[test]
fn saved_address_is_read_back() {
    assert_eq!(STORAGE_KEY, "saved_address");
    let json = saved_address_json("Hauptstr. 1 \"Hinterhaus\"", "52.52", "13.405");
    assert_eq!(json, "{\"text\":\"Hauptstr. 1 \\\"Hinterhaus\\\"\",\"lat\":52.52,\"lng\":13.405}");
    assert_eq!(extract_string_field(&json, "text"), Some("Hauptstr. 1 \"Hinterhaus\"".to_string()));
    assert_eq!(extract_number_text(&json, "lat"), Some("52.52".to_string()));
    assert_eq!(extract_number_text(&json, "lng"), Some("13.405".to_string()));
    assert_eq!(extract_string_field(&json, "name"), None);
    assert_eq!(extract_number_text("{\"lat\":5", "lat"), None);
    assert_eq!(extract_string_field("{\"text\":\"abc", "text"), Some("abc".to_string()));
}

#[test]
fn saved_address_with_backslashes() {
    let text = "Hof 2\\3, \"Aufgang\\\" B\"";
    let json = saved_address_json(text, "-52.5", "13.40");
    assert_eq!(extract_string_field(&json, "text"), Some(text.to_string()));
    assert_eq!(extract_number_text(&json, "lat"), Some("-52.5".to_string()));
    assert_eq!(extract_number_text(&json, "lng"), Some("13.40".to_string()));
    // A trailing backslash escapes the closing quote, so the text runs on.
    let json = saved_address_json("C:\\", "52.5", "13.4");
    assert_eq!(extract_string_field(&json, "text"), Some("C:\",".to_string()));
}

#[test]
fn paths_lead_to_pages() {
    assert_eq!(route_of("/"), Route::Listing);
    assert_eq!(route_of("/school/05Y01"), Route::School("05Y01".to_string()));
    assert_eq!(route_of("/school/"), Route::NotFound);
    assert_eq!(route_of("/school/a/b"), Route::NotFound);
    assert_eq!(route_of("/schools/x"), Route::NotFound);
    assert_eq!(route_of("/impressum"), Route::NotFound);
    let (path, _) = parse_hash("#/school/07Y03");
    assert_eq!(route_of(&path), Route::School("07Y03".to_string()));
}

#[test]
fn service_constants() {
    assert_eq!(MATRIX_URL, "https://valhalla1.openstreetmap.de/sources_to_targets");
    assert_eq!((WALK_COSTING, BIKE_COSTING, CAR_COSTING), ("pedestrian", "bicycle", "auto"));
}
