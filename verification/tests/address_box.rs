use berlin_gymnasien::address_search::{step, SearchAction, SearchEvent, SearchState};

fn labels(v: &[&str]) -> Vec<String> {
    v.iter().map(|s| s.to_string()).collect()
}

#[test]
fn short_text_is_not_searched() {
    let s = SearchState::new(String::new());
    let (s, a) = step(s, SearchEvent::Input("Al".into()));
    assert_eq!(a, SearchAction::Nothing);
    assert_eq!(s.input, "Al");
    let (s, a) = step(s, SearchEvent::Settled("Al".into()));
    assert_eq!(a, SearchAction::Nothing);
    assert!(!s.loading);
    assert!(s.visible_suggestions().is_empty());
    // Two characters of two bytes each are long enough.
    let (_, a) = step(s, SearchEvent::Settled("Öß".into()));
    assert_eq!(a, SearchAction::Geocode { query: "Öß".into(), epoch: 0 });
}

#[test]
fn answers_are_shown_and_picked() {
    let s = SearchState::new(String::new());
    let (s, a) = step(s, SearchEvent::Settled("Alexanderplatz".into()));
    assert_eq!(a, SearchAction::Geocode { query: "Alexanderplatz".into(), epoch: 0 });
    assert!(s.loading);
    let answer = labels(&["Alexanderplatz, 10178, Berlin", "Alexanderstraße 1, Berlin"]);
    let (s, a) = step(s, SearchEvent::Answer { epoch: 0, labels: Some(answer.clone()) });
    assert_eq!(a, SearchAction::KeepAnswer);
    assert!(!s.loading);
    assert_eq!(s.visible_suggestions(), answer);
    let (s, a) = step(s, SearchEvent::Pick { index: 1 });
    assert_eq!(a, SearchAction::Select { index: 1, drop: true });
    assert_eq!(s.input, "Alexanderstraße 1, Berlin");
    assert!(s.visible_suggestions().is_empty());
    let (_, a) = step(s, SearchEvent::Pick { index: 0 });
    assert_eq!(a, SearchAction::Nothing);
}

#[test]
fn submit_takes_the_first_suggestion() {
    let s = SearchState::new(String::new());
    let (s, _) = step(s, SearchEvent::Settled("Unter den Linden".into()));
    let (s, _) = step(s, SearchEvent::Answer { epoch: 0, labels: Some(labels(&["Unter den Linden 6, Berlin"])) });
    let (s, a) = step(s, SearchEvent::Submit);
    assert_eq!(a, SearchAction::Select { index: 0, drop: false });
    assert_eq!(s.input, "Unter den Linden 6, Berlin");
    assert_eq!(s.epoch, 1);
    assert!(s.visible_suggestions().is_empty());
}

#[test]
fn submit_searches_at_once_and_ignores_older_answers() {
    let s = SearchState::new(String::new());
    let (s, _) = step(s, SearchEvent::Input("Karl-Marx-Allee".into()));
    let (s, a) = step(s, SearchEvent::Settled("Karl-Marx".into()));
    assert_eq!(a, SearchAction::Geocode { query: "Karl-Marx".into(), epoch: 0 });
    let (s, a) = step(s, SearchEvent::Submit);
    assert_eq!(a, SearchAction::Geocode { query: "Karl-Marx-Allee".into(), epoch: 1 });
    // The answer to the search before the submit is ignored.
    let (s, a) = step(s, SearchEvent::Answer { epoch: 0, labels: Some(labels(&["Karl-Marx-Straße"])) });
    assert_eq!(a, SearchAction::Nothing);
    assert!(s.loading);
    assert!(s.visible_suggestions().is_empty());
    let (s, a) = step(s, SearchEvent::Answer { epoch: 1, labels: None });
    assert_eq!(a, SearchAction::DropSuggestions);
    assert!(!s.loading);
    let (s, a) = step(s, SearchEvent::Clear);
    assert_eq!(a, SearchAction::Cleared);
    assert_eq!(s.input, "");
    // A submit with too short a text searches nothing but starts a generation.
    let (s, a) = step(s, SearchEvent::Submit);
    assert_eq!(a, SearchAction::Nothing);
    assert_eq!(s.epoch, 2);
}
