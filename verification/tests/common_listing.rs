use berlin_gymnasien::listing::{
    active_filter_count, build_query_string, filter_and_sort, parse_csv_param, parse_tristate_param,
    split_coords_param, toggle_in_list,
};
use berlin_gymnasien::models::{all_districts, all_languages, all_profiles, LanguageEntry, School, SortField, TravelTimes};
use berlin_gymnasien::hash_router::parse_query_pairs;
use berlin_gymnasien::routing::{combine_travel_times, TravelTable};

fn school(id: &str, name: &str, district: &str) -> School {
    School {
        school_id: id.to_string(),
        name: name.to_string(),
        district: district.to_string(),
        last_updated: "2026-03-26".to_string(),
        address: None,
        coords: None,
        website: None,
        phone: None,
        email: None,
        traeger: None,
        student_count: None,
        teacher_count: None,
        accepts_after_4th_grade: None,
        profile: vec![],
        ganztag: None,
        languages: vec![],
        open_day: None,
        admission_requirements: None,
        abitur_average: None,
        abitur_pass_rate: None,
        abitur_student_count: None,
        image_urls: vec![],
        social_media: vec![],
        ratings: vec![],
        completeness_score: None,
        field_confidence: vec![],
        data_sources: vec![],
        unverified_fields: vec![],
        pinned_fields: vec![],
    }
}

fn s(v: &[&str]) -> Vec<String> {
    v.iter().map(|x| x.to_string()).collect()
}

fn ids(v: &[School]) -> Vec<String> {
    v.iter().map(|x| x.school_id.clone()).collect()
}

#[test]
fn sort_field_query_values() {
    assert_eq!(SortField::from_query("district"), SortField::District);
    assert_eq!(SortField::from_query("students"), SortField::StudentCount);
    assert_eq!(SortField::from_query("travel_walk"), SortField::TravelTimeWalk);
    assert_eq!(SortField::from_query("travel_bike"), SortField::TravelTimeBike);
    assert_eq!(SortField::from_query("travel_car"), SortField::TravelTimeCar);
    assert_eq!(SortField::from_query("bogus"), SortField::StudentCount);
    assert_eq!(SortField::from_query("name"), SortField::StudentCount);
    assert_eq!(SortField::Name.to_query(), "name");
    assert_eq!(SortField::TravelTimeCar.to_query(), "travel_car");
    assert!(SortField::TravelTimeBike.is_travel_time());
    assert!(!SortField::District.is_travel_time());
    assert_eq!(SortField::default(), SortField::StudentCount);
}

#[test]
fn sort_field_roundtrip_except_name() {
    for f in [
        SortField::District,
        SortField::StudentCount,
        SortField::TravelTimeWalk,
        SortField::TravelTimeBike,
        SortField::TravelTimeCar,
    ] {
        assert_eq!(SortField::from_query(f.to_query()), f);
    }
}

#[test]
fn option_lists_are_sorted_and_unique() {
    let mut a = school("1", "A", "Pankow");
    a.profile = s(&["MINT", "music"]);
    a.languages = vec![LanguageEntry { name: "Latein".into(), from_grade: Some(7) }];
    let mut b = school("2", "B", "Mitte");
    b.profile = s(&["MINT"]);
    b.languages = vec![
        LanguageEntry { name: "Englisch".into(), from_grade: Some(5) },
        LanguageEntry { name: "Latein".into(), from_grade: None },
    ];
    let c = school("3", "C", "Pankow");
    let all = vec![a, b, c];
    assert_eq!(all_districts(&all), s(&["Mitte", "Pankow"]));
    assert_eq!(all_profiles(&all), s(&["MINT", "music"]));
    assert_eq!(all_languages(&all), s(&["Englisch", "Latein"]));
    assert!(all_districts(&[]).is_empty());
}

#[test]
fn filters_select_schools() {
    let mut a = school("1", "Alpha", "Mitte");
    a.profile = s(&["MINT"]);
    a.accepts_after_4th_grade = Some(true);
    a.ganztag = Some(true);
    let mut b = school("2", "Beta", "Pankow");
    b.profile = s(&["music"]);
    b.languages = vec![LanguageEntry { name: "Latein".into(), from_grade: Some(5) }];
    let c = school("3", "Gamma", "Mitte");
    let all = vec![a, b, c];
    let none: Vec<String> = vec![];
    let r = filter_and_sort(&all, &s(&["Mitte"]), &none, None, &none, None, &SortField::Name, &None);
    assert_eq!(ids(&r), s(&["1", "3"]));
    let r = filter_and_sort(&all, &none, &s(&["music", "sports"]), None, &none, None, &SortField::Name, &None);
    assert_eq!(ids(&r), s(&["2"]));
    let r = filter_and_sort(&all, &none, &none, Some(true), &none, None, &SortField::Name, &None);
    assert_eq!(ids(&r), s(&["1"]));
    let r = filter_and_sort(&all, &none, &none, Some(false), &none, None, &SortField::Name, &None);
    assert_eq!(ids(&r), s(&["2", "3"]));
    let r = filter_and_sort(&all, &none, &none, None, &s(&["Latein"]), None, &SortField::Name, &None);
    assert_eq!(ids(&r), s(&["2"]));
    let r = filter_and_sort(&all, &none, &none, None, &none, Some(false), &SortField::Name, &None);
    assert_eq!(ids(&r), s(&["2", "3"]));
    let r = filter_and_sort(&all, &s(&["Kreuzberg"]), &none, None, &none, None, &SortField::Name, &None);
    assert!(r.is_empty());
}

#[test]
fn sorting_orders_and_is_stable() {
    let mut a = school("1", "Zeta", "Mitte");
    a.student_count = Some(500);
    let mut b = school("2", "Alpha", "Pankow");
    b.student_count = Some(800);
    let mut c = school("3", "Beta", "Mitte");
    c.student_count = Some(500);
    let d = school("4", "Delta", "Lichtenberg");
    let all = vec![a, b, c, d];
    let none: Vec<String> = vec![];
    let by = |f: SortField| ids(&filter_and_sort(&all, &none, &none, None, &none, None, &f, &None));
    assert_eq!(by(SortField::Name), s(&["2", "3", "4", "1"]));
    assert_eq!(by(SortField::District), s(&["4", "3", "1", "2"]));
    // descending by count, ties keep their order, none counts as 0
    assert_eq!(by(SortField::StudentCount), s(&["2", "1", "3", "4"]));
    // no travel times: by name
    assert_eq!(by(SortField::TravelTimeWalk), s(&["2", "3", "4", "1"]));
}

#[test]
fn sorting_by_travel_time() {
    let all = vec![
        school("1", "Zeta", "Mitte"),
        school("2", "Alpha", "Mitte"),
        school("3", "Beta", "Mitte"),
        school("4", "Gamma", "Mitte"),
    ];
    let mut table = TravelTable::new();
    table.insert("1".into(), TravelTimes { walk_minutes: Some(20), bike_minutes: Some(5), car_minutes: None });
    table.insert("3".into(), TravelTimes { walk_minutes: Some(10), bike_minutes: None, car_minutes: None });
    table.insert("4".into(), TravelTimes { walk_minutes: Some(20), bike_minutes: None, car_minutes: Some(3) });
    let tt = Some(table);
    let none: Vec<String> = vec![];
    let by = |f: SortField| ids(&filter_and_sort(&all, &none, &none, None, &none, None, &f, &tt));
    assert_eq!(by(SortField::TravelTimeWalk), s(&["3", "1", "4", "2"]));
    assert_eq!(by(SortField::TravelTimeBike), s(&["1", "2", "3", "4"]));
    assert_eq!(by(SortField::TravelTimeCar), s(&["4", "2", "3", "1"]));
}

#[test]
fn travel_table_latest_entry_wins() {
    let mut table = TravelTable::new();
    table.insert("a".into(), TravelTimes { walk_minutes: Some(1), bike_minutes: None, car_minutes: None });
    table.insert("a".into(), TravelTimes { walk_minutes: Some(2), bike_minutes: None, car_minutes: None });
    assert_eq!(table.get("a").unwrap().walk_minutes, Some(2));
    assert!(table.get("b").is_none());
}

#[test]
fn combine_travel_times_by_position() {
    let ids = s(&["x", "y", "z"]);
    let walk: Result<Vec<Option<u32>>, String> = Ok(vec![Some(10), None]);
    let bike: Result<Vec<Option<u32>>, String> = Err("Valhalla HTTP 500".into());
    let car: Result<Vec<Option<u32>>, String> = Ok(vec![Some(3), Some(4), Some(5), Some(6)]);
    let t = combine_travel_times(&ids, &walk, &bike, &car);
    assert_eq!(t.entries.len(), 3);
    assert_eq!(t.get("x"), Some(TravelTimes { walk_minutes: Some(10), bike_minutes: None, car_minutes: Some(3) }));
    assert_eq!(t.get("y"), Some(TravelTimes { walk_minutes: None, bike_minutes: None, car_minutes: Some(4) }));
    assert_eq!(t.get("z"), Some(TravelTimes { walk_minutes: None, bike_minutes: None, car_minutes: Some(5) }));
}

#[test]
fn toggle_adds_and_removes() {
    assert_eq!(toggle_in_list(&s(&["a", "b"]), "c"), s(&["a", "b", "c"]));
    assert_eq!(toggle_in_list(&s(&["a", "b", "a"]), "a"), s(&["b"]));
    let once = toggle_in_list(&s(&["a"]), "b");
    assert_eq!(toggle_in_list(&once, "b"), s(&["a"]));
}

#[test]
fn query_string_of_filters() {
    let q = build_query_string(
        &s(&["Mitte", "Pankow"]),
        &s(&["MINT"]),
        Some(true),
        &s(&[]),
        Some(false),
        &SortField::District,
        "map",
        Some(("52.520000", "13.405000")),
    );
    assert_eq!(
        q,
        "district=Mitte,Pankow&profile=MINT&grundstaendig=ja&ganztag=nein&sort=district&view=map&from=52.520000,13.405000"
    );
    let empty = build_query_string(&s(&[]), &s(&[]), None, &s(&[]), None, &SortField::StudentCount, "", None);
    assert_eq!(empty, "");
    let by_name = build_query_string(&s(&[]), &s(&[]), None, &s(&[]), None, &SortField::Name, "", None);
    assert_eq!(by_name, "sort=name");
    let default_order =
        build_query_string(&s(&[]), &s(&[]), None, &s(&["Latein"]), None, &SortField::StudentCount, "", None);
    assert_eq!(default_order, "language=Latein");
}

#[test]
fn query_params_parse() {
    assert_eq!(parse_csv_param(Some("Mitte,Pankow")), s(&["Mitte", "Pankow"]));
    assert_eq!(parse_csv_param(Some("")), s(&[]));
    assert_eq!(parse_csv_param(None), s(&[]));
    assert_eq!(parse_csv_param(Some("a,,b")), s(&["a", "", "b"]));
    assert_eq!(parse_tristate_param(Some("ja")), Some(true));
    assert_eq!(parse_tristate_param(Some("nein")), Some(false));
    assert_eq!(parse_tristate_param(Some("yes")), None);
    assert_eq!(parse_tristate_param(None), None);
    assert_eq!(split_coords_param("52.5,13.4"), Some(("52.5".to_string(), "13.4".to_string())));
    assert_eq!(split_coords_param("52.5"), None);
    assert_eq!(split_coords_param("1,2,3"), None);
}

#[test]
fn active_filters_are_counted() {
    assert_eq!(active_filter_count(&s(&["a", "b"]), &s(&["c"]), Some(false), &s(&[]), None), 4);
    assert_eq!(active_filter_count(&s(&[]), &s(&[]), None, &s(&[]), None), 0);
}

fn lookup(pairs: &[(String, String)], key: &str) -> Option<String> {
    pairs.iter().rev().find(|(k, _)| k == key).map(|(_, v)| v.clone())
}

#[test]
fn filter_state_reads_back_from_its_query_string() {
    let districts = s(&["Mitte", "Charlottenburg-Wilmersdorf"]);
    let languages = s(&["Latein", "Altgriechisch", "Französisch"]);
    let q = build_query_string(
        &districts,
        &s(&[]),
        Some(false),
        &languages,
        None,
        &SortField::TravelTimeBike,
        "list",
        Some(("52.498612", "13.391830")),
    );
    let pairs = parse_query_pairs(&q);
    assert_eq!(parse_csv_param(lookup(&pairs, "district").as_deref()), districts);
    assert_eq!(parse_csv_param(lookup(&pairs, "profile").as_deref()), s(&[]));
    assert_eq!(parse_csv_param(lookup(&pairs, "language").as_deref()), languages);
    assert_eq!(parse_tristate_param(lookup(&pairs, "grundstaendig").as_deref()), Some(false));
    assert_eq!(parse_tristate_param(lookup(&pairs, "ganztag").as_deref()), None);
    assert_eq!(SortField::from_query(&lookup(&pairs, "sort").unwrap()), SortField::TravelTimeBike);
    assert_eq!(lookup(&pairs, "view"), None);
    assert_eq!(
        split_coords_param(&lookup(&pairs, "from").unwrap()),
        Some(("52.498612".to_string(), "13.391830".to_string()))
    );
    // The default order is not written; by name is written, and reads back
    // as the default order.
    let default_order =
        build_query_string(&s(&[]), &s(&[]), None, &s(&[]), None, &SortField::StudentCount, "map", None);
    let pairs = parse_query_pairs(&default_order);
    assert_eq!(lookup(&pairs, "sort"), None);
    assert_eq!(lookup(&pairs, "view"), Some("map".to_string()));
    let by_name = build_query_string(&s(&[]), &s(&[]), None, &s(&[]), None, &SortField::Name, "", None);
    let pairs = parse_query_pairs(&by_name);
    assert_eq!(lookup(&pairs, "sort"), Some("name".to_string()));
    assert_eq!(SortField::from_query("name"), SortField::StudentCount);
}
