use berlin_gymnasien::display::{
    abitur_color, admission_demand_level, bool_display, build_popup_html, completeness_percent, demand_color,
    demand_level, demand_status_key, extract_domain, format_date, format_students, ganztag_label, humanize_source,
    pass_rate_color, profile_class, profile_color, profile_color_for_map, sorted_rating_keys, sources_display, stars,
    student_teacher, traeger_label, travel_minutes_text, DemandLevel, framing, map_pins, Framing,
};
use berlin_gymnasien::geocoding::{PhotonFeature, PhotonProperties};
use berlin_gymnasien::i18n::Language;
use berlin_gymnasien::infographics::{
    card_texts, compare_groups, compare_staffing, compute_academic, compute_hype_quality, compute_supply_demand, district_aggregates,
    district_row_style, group_stats, modal_key, ratio_lt, viewer_step, DistrictStats, GroupTest, Ratio, RowStyle,
    ViewerEvent, INFOGRAPHIC_COUNT,
};
use berlin_gymnasien::district_rank::{district_below, rank_districts};
use berlin_gymnasien::natural::{from_word, less, mul_word, product, sum};
use berlin_gymnasien::models::{AdmissionRequirements, Coords, RatingEntry, School};

fn school(id: &str, name: &str, district: &str) -> School {
    School {
        school_id: id.to_string(),
        name: name.to_string(),
        district: district.to_string(),
        last_updated: "2026-03-26".to_string(),
        address: None,
        coords: None,
        website: None,
        phone: None,
        email: None,
        traeger: None,
        student_count: None,
        teacher_count: None,
        accepts_after_4th_grade: None,
        profile: vec![],
        ganztag: None,
        languages: vec![],
        open_day: None,
        admission_requirements: None,
        abitur_average: None,
        abitur_pass_rate: None,
        abitur_student_count: None,
        image_urls: vec![],
        social_media: vec![],
        ratings: vec![],
        completeness_score: None,
        field_confidence: vec![],
        data_sources: vec![],
        unverified_fields: vec![],
        pinned_fields: vec![],
    }
}

fn with_demand(mut s: School, d: u32) -> School {
    s.admission_requirements = Some(AdmissionRequirements {
        notendurchschnitt: None,
        oversubscribed: None,
        selection_criteria: None,
        probeunterricht: None,
        entrance_test: None,
        notes: None,
        first_choices: None,
        places: None,
        demand_ratio: Some(d),
    });
    s
}

fn rating(score: Option<u32>) -> RatingEntry {
    RatingEntry {
        source: "s".into(),
        score,
        scale_min: 1000,
        scale_max: 5000,
        review_count: None,
        retrieved: "2026-01-01".into(),
    }
}

#[test]
fn dates_domains_sources() {
    assert_eq!(format_date("2026-03-26"), "26.03.2026");
    assert_eq!(format_date("März 2026"), "März 2026");
    assert_eq!(format_date("2026-03"), "2026-03");
    assert_eq!(extract_domain("https://www.example-schule.de/"), "example-schule.de");
    assert_eq!(extract_domain("http://schule.berlin//"), "schule.berlin");
    assert_eq!(extract_domain("https://https://x.de"), "x.de");
    assert_eq!(extract_domain("http://schule.berlin.de/kontakt/"), "schule.berlin.de");
    assert_eq!(extract_domain("www.gymnasium.de"), "gymnasium.de");
    assert_eq!(humanize_source("schulen_de"), "Schulen De");
    assert_eq!(humanize_source("google__maps"), "Google  Maps");
    assert_eq!(humanize_source(""), "");
}

#[test]
fn labels() {
    assert_eq!(bool_display(Some(true), Language::De), "Ja");
    assert_eq!(bool_display(None, Language::En), "No data");
    assert_eq!(traeger_label(&Some("privat".into()), Language::De), "Privat");
    assert_eq!(traeger_label(&Some("öffentlich".into()), Language::En), "Public");
    assert_eq!(traeger_label(&Some("kirchlich".into()), Language::En), "Unknown");
    assert_eq!(traeger_label(&None, Language::De), "Keine Angabe");
    assert_eq!(ganztag_label(Some(false), Language::De), "Halbtagsschule");
    assert_eq!(student_teacher(Some(812), Some(64), Language::De), "812 Schueler / 64 Lehrkraefte");
    assert_eq!(student_teacher(None, Some(64), Language::En), "64 teachers");
    assert_eq!(student_teacher(None, None, Language::En), "No data");
    assert_eq!(sources_display(&vec!["wfs_berlin".into(), "agent_research".into()], Language::De), "wfs_berlin, agent_research");
    assert_eq!(sources_display(&vec![], Language::De), "Keine Angabe");
}

#[test]
fn colours_and_levels() {
    assert_eq!(profile_color("MINT"), "#22c55e");
    assert_eq!(profile_color("bilingual_french"), "#f97316");
    assert_eq!(profile_color("theater"), "#6b7280");
    assert_eq!(profile_color_for_map(&vec!["music".into(), "MINT".into()]), "#a855f7");
    assert_eq!(profile_color_for_map(&vec![]), "#6b7280");
    assert_eq!(profile_class("MINT"), "profile-mint");
    assert_eq!(profile_class("Musik"), "profile-musik");
    assert_eq!(profile_class("bilingual_english"), "profile-other");
    assert_eq!(abitur_color(1800), "#16a34a");
    assert_eq!(abitur_color(2300), "#ca8a04");
    assert_eq!(abitur_color(2301), "#6b7280");
    assert_eq!(pass_rate_color(98000), "#16a34a");
    assert_eq!(pass_rate_color(89999), "#dc2626");
    assert_eq!(demand_level(1500), DemandLevel::Oversubscribed);
    assert_eq!(demand_level(1501), DemandLevel::HighlyOversubscribed);
    assert_eq!(demand_level(1000), DemandLevel::Undersubscribed);
    assert_eq!(admission_demand_level(None, 3, 2), DemandLevel::Oversubscribed);
    assert_eq!(admission_demand_level(None, 4, 2), DemandLevel::HighlyOversubscribed);
    assert_eq!(admission_demand_level(None, 1, 0), DemandLevel::HighlyOversubscribed);
    assert_eq!(admission_demand_level(None, 0, 0), DemandLevel::Undersubscribed);
    assert_eq!(admission_demand_level(Some(900), 4, 2), DemandLevel::Undersubscribed);
    assert_eq!(demand_color(DemandLevel::HighlyOversubscribed), "#dc2626");
    assert_eq!(demand_status_key(DemandLevel::Oversubscribed), "demand_oversubscribed");
}

#[test]
fn card_numbers() {
    assert_eq!(stars(4500), (4, 1, 0));
    assert_eq!(stars(3200), (3, 0, 2));
    assert_eq!(completeness_percent(Some(850)), 85);
    assert_eq!(completeness_percent(None), 0);
    assert_eq!(travel_minutes_text(Some(17)), "17 Min.");
    assert_eq!(travel_minutes_text(None), "\u{2014}");
    assert_eq!(format_students(0), "0");
    assert_eq!(format_students(999), "999");
    assert_eq!(format_students(1000), "1,000");
    assert_eq!(format_students(1234567), "1,234,567");
    let ratings = vec![
        ("schulen_de".to_string(), rating(Some(4000))),
        ("google".to_string(), rating(None)),
    ];
    assert_eq!(sorted_rating_keys(&ratings), vec!["google".to_string(), "schulen_de".to_string()]);
}

#[test]
fn popup_and_suggestion_labels() {
    let mut s = school("07Y01", "Einstein-Gymnasium", "Reinickendorf");
    s.accepts_after_4th_grade = Some(true);
    s.profile = vec!["MINT".into()];
    let html = build_popup_html(&s, Language::En);
    assert_eq!(
        html,
        "<div class='map-popup'><strong>Einstein-Gymnasium</strong><br><span class='popup-district'>Reinickendorf</span><br><span class='popup-grundstaendig'>from grade 5</span><div class='popup-profiles'><span style='background:#22c55e;color:#fff;padding:1px 6px;border-radius:8px;font-size:0.7rem;margin:2px;display:inline-block'>MINT</span></div><br><a href='#/school/07Y01' class='popup-detail-link'>Details &rarr;</a></div>"
    );
    let p = PhotonProperties {
        name: Some("Rathaus".into()),
        street: Some("Hauptstr.".into()),
        housenumber: None,
        postcode: Some("10827".into()),
        city: Some("Berlin".into()),
        state: None,
        country: None,
    };
    let f = PhotonFeature { properties: p.clone() };
    assert_eq!(f.display_label(), "Hauptstr., 10827, Berlin");
    let only_name = PhotonFeature {
        properties: PhotonProperties { street: None, postcode: None, city: None, ..p },
    };
    assert_eq!(only_name.display_label(), "Rathaus");
}

#[test]
fn academic_figures() {
    let mut a = school("1", "A", "Mitte");
    a.abitur_average = Some(2100);
    a.abitur_pass_rate = Some(96000);
    let mut b = school("2", "B", "Mitte");
    b.abitur_average = Some(1700);
    b.abitur_pass_rate = Some(91000);
    let mut c = school("3", "C", "Pankow");
    c.abitur_average = Some(2100);
    c.abitur_pass_rate = Some(80000);
    let d = school("4", "D", "Pankow");
    let data = compute_academic(&vec![a, b, c, d]);
    let top: Vec<(String, u32)> = data.top_schools.iter().map(|e| (e.school_id.clone(), e.value)).collect();
    assert_eq!(top, vec![("2".to_string(), 1700), ("1".to_string(), 2100), ("3".to_string(), 2100)]);
    assert_eq!(data.best_avg, 1700);
    assert_eq!(data.median_avg, 2100);
    assert_eq!(data.schools_rated, 3);
    assert_eq!(data.total_schools, 4);
    assert_eq!((data.pass_rate_95_plus, data.pass_rate_90_95, data.pass_rate_below_90), (1, 1, 1));
    assert_eq!(data.pct_above_95, Ratio { num: 100, den: 3 });
    let empty = compute_academic(&vec![]);
    assert_eq!((empty.best_avg, empty.median_avg, empty.top_schools.len()), (0, 0, 0));
}

#[test]
fn supply_and_demand_figures() {
    let mut a = with_demand(school("1", "A", "Mitte"), 1200);
    a.student_count = Some(600);
    a.teacher_count = Some(50);
    a.accepts_after_4th_grade = Some(true);
    let mut b = with_demand(school("2", "B", "Pankow"), 2500);
    b.student_count = Some(400);
    let c = school("3", "C", "Pankow");
    let d = with_demand(school("4", "D", "Spandau"), 1200);
    let data = compute_supply_demand(&vec![a, b, c, d]);
    assert_eq!(data.total_schools, 4);
    assert_eq!(data.accept_4th, 1);
    assert_eq!(data.avg_student_teacher, Ratio { num: 1000, den: 50 });
    let over: Vec<String> = data.oversubscribed.iter().map(|e| e.school_id.clone()).collect();
    assert_eq!(over, vec!["2".to_string(), "1".to_string(), "4".to_string()]);
    let ds: Vec<(String, usize)> = data.districts.iter().map(|d| (d.name.clone(), d.count)).collect();
    assert_eq!(ds, vec![("Pankow".to_string(), 2), ("Mitte".to_string(), 1), ("Spandau".to_string(), 1)]);
}

#[test]
fn hype_figures() {
    let mut v = vec![];
    for (id, abi, dem) in [("1", 1500, 800), ("2", 2500, 1500), ("3", 2000, 1300), ("4", 2600, 700), ("5", 1800, 1250)] {
        let mut s = with_demand(school(id, id, "Mitte"), dem);
        s.abitur_average = Some(abi);
        v.push(s);
    }
    v.push(school("6", "6", "Mitte"));
    let data = compute_hype_quality(&v);
    assert_eq!(data.schools_analyzed, 5);
    assert_eq!(data.median_abitur, 2000);
    assert_eq!(data.sums.n, 5);
    assert_eq!(data.sums.sum_x, 800 + 1500 + 1300 + 700 + 1250);
    assert_eq!(data.sums.sum_y, 1500 + 2500 + 2000 + 2600 + 1800);
    let gems: Vec<String> = data.hidden_gems.iter().map(|e| e.school_id.clone()).collect();
    assert_eq!(gems, vec!["1".to_string()]);
    let hyped: Vec<String> = data.overhyped.iter().map(|e| e.school_id.clone()).collect();
    assert_eq!(hyped, vec!["2".to_string()]);
    assert_eq!(data.best_combo.as_ref().map(|e| e.school_id.clone()), Some("5".to_string()));
    assert_eq!(data.best_combo_demand, Some(1250));
    assert_eq!(data.worst_combo.as_ref().map(|e| e.school_id.clone()), Some("4".to_string()));
    let none = compute_hype_quality(&vec![school("9", "9", "X")]);
    assert_eq!(none.median_abitur, 2000);
    assert!(none.best_combo.is_none() && none.worst_combo_demand.is_none());
}

#[test]
fn group_figures() {
    let mut a = school("1", "A", "Mitte");
    a.traeger = Some("privat".into());
    a.abitur_average = Some(1600);
    a.student_count = Some(300);
    a.teacher_count = Some(30);
    let mut b = school("2", "B", "Mitte");
    b.abitur_average = Some(2200);
    b.abitur_pass_rate = Some(95000);
    b.student_count = Some(900);
    b.teacher_count = Some(0);
    let mut c = school("3", "C", "Pankow");
    c.abitur_average = Some(2000);
    c.accepts_after_4th_grade = Some(true);
    let all = vec![a, b, c];
    let cmp = compare_groups(&all, &GroupTest::Private, &GroupTest::Public);
    assert_eq!(cmp.left.count, 1);
    assert_eq!(cmp.right.count, 2);
    assert_eq!(cmp.left.abitur, Ratio { num: 1600, den: 1 });
    assert_eq!(cmp.right.abitur, Ratio { num: 4200, den: 2 });
    assert!(cmp.abitur_left_wins);
    assert!(!cmp.pass_left_wins);
    assert_eq!(cmp.left.staffing, vec![(300, 30)]);
    assert!(cmp.right.staffing.is_empty());
    let g = group_stats(&all, &GroupTest::EarlyEntry);
    assert_eq!(g.count, 1);
    assert_eq!(g.size, Ratio { num: 0, den: 0 });
    assert!(ratio_lt(Ratio { num: 1, den: 3 }, Ratio { num: 1, den: 2 }));
    assert!(!ratio_lt(Ratio { num: 5, den: 0 }, Ratio { num: 0, den: 7 }));
    let agg = district_aggregates(&all);
    assert_eq!(agg.districts.len(), 2);
    assert_eq!(agg.districts[0].name, "Mitte");
    assert_eq!(agg.districts[0].avg_abitur, Ratio { num: 3800, den: 2 });
    assert_eq!(agg.districts[0].total_students, 1200);
    assert_eq!(agg.total_students, 1200);
    assert_eq!(agg.city_avg, Ratio { num: 5800, den: 3 });
}

#[test]
fn infographic_cards() {
    assert_eq!(INFOGRAPHIC_COUNT, 6);
    assert_eq!(card_texts(1, Language::En), ("Supply vs Demand", "Sort by student count", "/?sort=students"));
    assert_eq!(card_texts(4, Language::De).2, "/?grundstaendig=ja");
    assert_eq!(modal_key(2, "Escape", 6), Some(None));
    assert_eq!(modal_key(0, "ArrowLeft", 6), None);
    assert_eq!(modal_key(2, "ArrowLeft", 6), Some(Some(1)));
    assert_eq!(modal_key(5, "ArrowRight", 6), None);
    assert_eq!(modal_key(4, "ArrowRight", 6), Some(Some(5)));
    assert_eq!(modal_key(4, "Enter", 6), None);
}

#[test]
fn map_pins_and_framing() {
    let mut a = school("01Y01", "Gymnasium A", "Mitte");
    a.coords = Some(Coords { lat: 52_520_008, lng: 13_404_954 });
    a.profile = vec!["sports".into(), "MINT".into()];
    let b = school("01Y02", "Gymnasium B", "Mitte");
    let mut c = school("01Y03", "Gymnasium C", "Pankow");
    c.coords = Some(Coords { lat: 52_569_000, lng: 13_402_000 });
    let pins = map_pins(&vec![a.clone(), b, c.clone()], Language::De);
    assert_eq!(pins.len(), 2);
    assert_eq!((pins[0].lat, pins[0].lng, pins[0].color), (52_520_008, 13_404_954, "#3b82f6"));
    assert_eq!(pins[0].popup, build_popup_html(&a, Language::De));
    assert_eq!((pins[1].lat, pins[1].color), (52_569_000, "#6b7280"));
    assert_eq!(pins[1].popup, build_popup_html(&c, Language::De));
    assert_eq!(framing(0), Framing::Berlin);
    assert_eq!(framing(1), Framing::Single);
    assert_eq!(framing(12), Framing::Fit);
}

#[test]
fn district_table_rows() {
    assert_eq!(district_row_style(1, 12), RowStyle { top: true, bottom: false, divider_before: false });
    assert_eq!(district_row_style(5, 12), RowStyle { top: false, bottom: false, divider_before: false });
    assert_eq!(district_row_style(11, 12), RowStyle { top: false, bottom: true, divider_before: true });
    assert_eq!(district_row_style(12, 12), RowStyle { top: false, bottom: true, divider_before: false });
    // In a table of three rows the last two are in red, the first among them too.
    assert_eq!(district_row_style(2, 3), RowStyle { top: true, bottom: true, divider_before: true });
}

fn district(name: &str, abitur: (u64, u64), demand: (u64, u64), pass: (u64, u64)) -> DistrictStats {
    DistrictStats {
        name: name.into(),
        avg_abitur: Ratio { num: abitur.0, den: abitur.1 },
        avg_demand: Ratio { num: demand.0, den: demand.1 },
        avg_pass: Ratio { num: pass.0, den: pass.1 },
        total_students: 0,
    }
}

#[test]
fn districts_rank_by_composite_score() {
    // Scores (decimal): a = 2.0 - 0.5 - 0.95 = 0.55; b = 1.8 - 0.6 - 0.97 = 0.23;
    // c = 2.4 - 0 - 0 = 2.4 (no data counts as zero); d equals a exactly.
    let a = district("A", (4000, 2), (2000, 2), (190000, 2));
    let b = district("B", (1800, 1), (1200, 1), (97000, 1));
    let c = district("C", (7200, 3), (0, 0), (0, 0));
    let d = district("D", (6000, 3), (3000, 3), (285000, 3));
    assert!(district_below(&b, &a));
    assert!(!district_below(&a, &b));
    assert!(!district_below(&a, &d) && !district_below(&d, &a));
    assert_eq!(rank_districts(&vec![a, b, c, d]), vec![1, 0, 3, 2]);
    assert_eq!(rank_districts(&vec![]), Vec::<usize>::new());
    // Large figures are compared exactly.
    let big = district("X", (u64::MAX, u64::MAX - 1), (u64::MAX, u64::MAX), (0, 1));
    let bigger = district("Y", (u64::MAX, u64::MAX - 2), (u64::MAX, u64::MAX), (0, 1));
    assert!(district_below(&big, &bigger));
    assert!(!district_below(&bigger, &big));
}

#[test]
fn limb_arithmetic() {
    let m = u64::MAX;
    let x = mul_word(&from_word(m), m);
    assert_eq!(x, vec![1, m - 1]);
    assert_eq!(sum(x.clone(), from_word(m)), vec![0, m, 0]);
    assert!(less(from_word(m), x.clone()));
    assert!(!less(x.clone(), x.clone()));
    assert_eq!(product(2, &vec![3, 5]), vec![30, 0, 0]);
}

#[test]
fn card_viewer() {
    assert_eq!(viewer_step(0, &ViewerEvent::Previous), (None, false));
    assert_eq!(viewer_step(2, &ViewerEvent::Previous), (Some(Some(1)), false));
    assert_eq!(viewer_step(5, &ViewerEvent::Next), (None, false));
    assert_eq!(viewer_step(4, &ViewerEvent::Next), (Some(Some(5)), false));
    assert_eq!(viewer_step(1, &ViewerEvent::Dot(4)), (Some(Some(4)), false));
    assert_eq!(viewer_step(1, &ViewerEvent::Dot(6)), (None, false));
    assert_eq!(viewer_step(3, &ViewerEvent::Close), (Some(None), false));
    assert_eq!(viewer_step(3, &ViewerEvent::Action), (Some(None), true));
    assert_eq!(viewer_step(3, &ViewerEvent::Key("Escape".into())), (Some(None), false));
    assert_eq!(viewer_step(3, &ViewerEvent::Key("ArrowRight".into())), (Some(Some(4)), false));
}

#[test]
fn groups_cover_all_schools() {
    let mut a = school("1", "A", "Mitte");
    a.traeger = Some("privat".into());
    a.accepts_after_4th_grade = Some(true);
    let b = school("2", "B", "Mitte");
    let mut c = school("3", "C", "Pankow");
    c.accepts_after_4th_grade = Some(false);
    let all = vec![a, b, c];
    let pp = compare_groups(&all, &GroupTest::Private, &GroupTest::Public);
    assert_eq!((pp.left.count, pp.right.count), (1, 2));
    let g4 = compare_groups(&all, &GroupTest::EarlyEntry, &GroupTest::Standard);
    assert_eq!((g4.left.count, g4.right.count), (1, 2));
    assert_eq!(g4.left.count, compute_supply_demand(&all).accept_4th);
}

#[test]
fn district_totals_add_up() {
    let mut a = school("1", "A", "Mitte");
    a.student_count = Some(640);
    let mut b = school("2", "B", "Pankow");
    b.student_count = Some(910);
    let c = school("3", "C", "Mitte");
    let mut d = school("4", "D", "Spandau");
    d.student_count = Some(450);
    let mut e = school("5", "E", "Pankow");
    e.student_count = Some(700);
    let all = vec![a, b, c, d, e];
    let agg = district_aggregates(&all);
    let names: Vec<&str> = agg.districts.iter().map(|r| r.name.as_str()).collect();
    assert_eq!(names, vec!["Mitte", "Pankow", "Spandau"]);
    let per_district: Vec<u64> = agg.districts.iter().map(|r| r.total_students).collect();
    assert_eq!(per_district, vec![640, 1610, 450]);
    assert_eq!(per_district.iter().sum::<u64>(), agg.total_students);
    assert_eq!(agg.total_students, 2700);
}

#[test]
fn staffing_verdicts() {
    let mut a = school("1", "A", "Mitte");
    a.traeger = Some("privat".into());
    a.student_count = Some(300);
    a.teacher_count = Some(30);
    let mut b = school("2", "B", "Mitte");
    b.traeger = Some("privat".into());
    b.student_count = Some(200);
    b.teacher_count = Some(25);
    let mut c = school("3", "C", "Pankow");
    c.student_count = Some(400);
    c.teacher_count = Some(40);
    let mut d = school("4", "D", "Pankow");
    d.student_count = Some(190);
    d.teacher_count = Some(19);
    let all = vec![a, b, c, d];
    let cmp = compare_groups(&all, &GroupTest::Private, &GroupTest::Public);
    assert_eq!(cmp.left.staffing, vec![(300, 30), (200, 25)]);
    assert!(cmp.staffing_left_wins);
    let rev = compare_groups(&all, &GroupTest::Public, &GroupTest::Private);
    assert!(!rev.staffing_left_wins);
    assert!(!compare_staffing(&vec![(1, 3)], &vec![(1, 3)]));
    assert!(compare_staffing(&vec![(1, 3), (1, 3), (1, 3)], &vec![(1, 2)]));
    assert!(!compare_staffing(&vec![(0, 5)], &vec![(10, 1)]));
    assert!(!compare_staffing(&vec![], &vec![(10, 1)]));
    assert!(!compare_staffing(&vec![(10, 1)], &vec![]));
}
