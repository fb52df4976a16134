//! The address box of the listing: what it shows, when it asks the
//! geocoder, which answers it keeps, and what a choice selects.
//!
//! The box is a state machine: each event (typing, the settled text after
//! the typing pause, an answer of the geocoder, a submit, a click on a
//! suggestion, the clear button) gives the next state and one action for
//! the caller to carry out. Every search is tagged with the generation it
//! was started in; a submit starts a new generation, so answers to earlier
//! searches are ignored.
use vstd::prelude::*;

use crate::models::copy_strings;

verus! {

broadcast use vstd::string::group_string_axioms;

/// The fewest bytes of text worth a search.
pub const MIN_QUERY_BYTES: usize = 3;

/// What the address box holds.
#[derive(Clone, Debug)]
pub struct SearchState {
    /// The text in the box.
    pub input: String,
    /// The labels of the suggestions held (those of the last answer kept).
    pub suggestions: Vec<String>,
    /// Whether the suggestion list is open.
    pub show_suggestions: bool,
    /// Whether a search is running.
    pub loading: bool,
    /// The current search generation.
    pub epoch: u64,
}

/// Something that happened to the address box.
#[derive(Clone, Debug)]
pub enum SearchEvent {
    /// The text in the box changed.
    Input(String),
    /// The text to search for, once the typing has paused.
    Settled(String),
    /// The geocoder's answer to a search of generation `epoch`: the labels
    /// of its suggestions, or nothing when it failed.
    Answer { epoch: u64, labels: Option<Vec<String>> },
    /// Enter or the search button.
    Submit,
    /// A click on suggestion `index`.
    Pick { index: usize },
    /// The clear button.
    Clear,
}

/// What the caller does after an event.
#[derive(Clone, Debug, PartialEq, Eq)]
pub enum SearchAction {
    /// Nothing.
    Nothing,
    /// Ask the geocoder for `query`; its answer belongs to generation `epoch`.
    Geocode { query: String, epoch: u64 },
    /// Keep the suggestions of the answer just received.
    KeepAnswer,
    /// Forget the suggestions held.
    DropSuggestions,
    /// Take suggestion `index` as the address; with `drop`, forget the
    /// suggestions held.
    Select { index: usize, drop: bool },
    /// The address was cleared.
    Cleared,
}

/// The plain values of a state: text, suggestion labels, list open,
/// loading, generation.
pub open spec fn state_view(s: SearchState) -> (Seq<char>, Seq<Seq<char>>, bool, bool, u64) {
    (s.input@, crate::text::views(s.suggestions@), s.show_suggestions, s.loading, s.epoch)
}

/// Whether a text is long enough to search for (counted in UTF-8 bytes).
pub open spec fn worth_searching(query: Seq<char>) -> bool {
    vstd::utf8::encode_utf8(query).len() >= MIN_QUERY_BYTES
}

/// The state after an event, over plain values.
pub open spec fn next_view(
    s: (Seq<char>, Seq<Seq<char>>, bool, bool, u64),
    e: SearchEvent,
) -> (Seq<char>, Seq<Seq<char>>, bool, bool, u64) {
    let (input, labels, show, loading, epoch) = s;
    match e {
        SearchEvent::Input(text) => (text@, labels, show, loading, epoch),
        SearchEvent::Settled(query) => if worth_searching(query@) {
            (input, labels, show, true, epoch)
        } else {
            (input, Seq::empty(), false, loading, epoch)
        },
        SearchEvent::Answer { epoch: tag, labels: answer } => if tag != epoch {
            s
        } else {
            match answer {
                Some(l) => (input, crate::text::views(l@), true, false, epoch),
                None => (input, Seq::empty(), false, false, epoch),
            }
        },
        SearchEvent::Submit => if labels.len() > 0 && show {
            (labels[0], labels, false, loading, (epoch + 1) as u64)
        } else if worth_searching(input) {
            (input, labels, show, true, (epoch + 1) as u64)
        } else {
            (input, labels, show, loading, (epoch + 1) as u64)
        },
        SearchEvent::Pick { index } => if index < labels.len() {
            (labels[index as int], Seq::empty(), false, loading, epoch)
        } else {
            s
        },
        SearchEvent::Clear => (Seq::empty(), Seq::empty(), false, loading, epoch),
    }
}

/// The action after an event.
pub open spec fn action_of(
    s: (Seq<char>, Seq<Seq<char>>, bool, bool, u64),
    e: SearchEvent,
    a: SearchAction,
) -> bool {
    let (input, labels, show, loading, epoch) = s;
    match e {
        SearchEvent::Input(_) => a == SearchAction::Nothing,
        SearchEvent::Settled(query) => if worth_searching(query@) {
            a matches SearchAction::Geocode { query: q, epoch: t } && q@ == query@ && t == epoch
        } else {
            a == SearchAction::Nothing
        },
        SearchEvent::Answer { epoch: tag, labels: answer } => if tag != epoch {
            a == SearchAction::Nothing
        } else if answer is Some {
            a == SearchAction::KeepAnswer
        } else {
            a == SearchAction::DropSuggestions
        },
        SearchEvent::Submit => if labels.len() > 0 && show {
            a == (SearchAction::Select { index: 0, drop: false })
        } else if worth_searching(input) {
            a matches SearchAction::Geocode { query: q, epoch: t } && q@ == input && t == epoch + 1
        } else {
            a == SearchAction::Nothing
        },
        SearchEvent::Pick { index } => if index < labels.len() {
            a == (SearchAction::Select { index, drop: true })
        } else {
            a == SearchAction::Nothing
        },
        SearchEvent::Clear => a == SearchAction::Cleared,
    }
}

/// Whether a text is long enough to search for.
fn is_worth_searching(query: &str) -> (r: bool)
    ensures
        r == worth_searching(query@),
{
    query.as_bytes().len() >= MIN_QUERY_BYTES
}

impl SearchState {
    /// An idle box holding `input`.
    pub fn new(input: String) -> (r: SearchState)
        ensures
            state_view(r) == (input@, Seq::<Seq<char>>::empty(), false, false, 0u64),
    {
        let r = SearchState { input, suggestions: Vec::new(), show_suggestions: false, loading: false, epoch: 0 };
        assert(crate::text::views(r.suggestions@) =~= Seq::<Seq<char>>::empty());
        r
    }

    /// The labels of the suggestions to list: those held while the list is
    /// open, none otherwise.
    pub fn visible_suggestions(&self) -> (r: Vec<String>)
        ensures
            crate::text::views(r@) == (if self.show_suggestions {
                crate::text::views(self.suggestions@)
            } else {
                Seq::empty()
            }),
    {
        if self.show_suggestions {
            let r = copy_strings(&self.suggestions);
            assert(crate::text::views(r@) =~= crate::text::views(self.suggestions@));
            r
        } else {
            let r: Vec<String> = Vec::new();
            assert(crate::text::views(r@) =~= Seq::<Seq<char>>::empty());
            r
        }
    }
}

/// The next state of the box and the action to carry out after an event.
/// A submit starts a new generation, so it needs one to be left.
pub fn step(state: SearchState, event: SearchEvent) -> (r: (SearchState, SearchAction))
    requires
        event is Submit ==> state.epoch < u64::MAX,
    ensures
        state_view(r.0) == next_view(state_view(state), event),
        action_of(state_view(state), event, r.1),
{
    let ghost sv = state_view(state);
    let SearchState { input, suggestions, show_suggestions, loading, epoch } = state;
    match event {
        SearchEvent::Input(text) => {
            (SearchState { input: text, suggestions, show_suggestions, loading, epoch }, SearchAction::Nothing)
        },
        SearchEvent::Settled(query) => {
            if is_worth_searching(query.as_str()) {
                (SearchState { input, suggestions, show_suggestions, loading: true, epoch }, SearchAction::Geocode {
                    query,
                    epoch,
                })
            } else {
                let r = SearchState { input, suggestions: Vec::new(), show_suggestions: false, loading, epoch };
                assert(crate::text::views(r.suggestions@) =~= Seq::<Seq<char>>::empty());
                (r, SearchAction::Nothing)
            }
        },
        SearchEvent::Answer { epoch: tag, labels } => {
            if tag != epoch {
                (SearchState { input, suggestions, show_suggestions, loading, epoch }, SearchAction::Nothing)
            } else {
                match labels {
                    Some(l) => (
                        SearchState { input, suggestions: l, show_suggestions: true, loading: false, epoch },
                        SearchAction::KeepAnswer,
                    ),
                    None => {
                        let r = SearchState {
                            input,
                            suggestions: Vec::new(),
                            show_suggestions: false,
                            loading: false,
                            epoch,
                        };
                        assert(crate::text::views(r.suggestions@) =~= Seq::<Seq<char>>::empty());
                        (r, SearchAction::DropSuggestions)
                    },
                }
            }
        },
        SearchEvent::Submit => {
            let next = epoch + 1;
            if suggestions.len() > 0 && show_suggestions {
                let first = suggestions[0].clone();
                assert(crate::text::views(suggestions@)[0] == suggestions@[0]@);
                (
                    SearchState { input: first, suggestions, show_suggestions: false, loading, epoch: next },
                    SearchAction::Select { index: 0, drop: false },
                )
            } else if is_worth_searching(input.as_str()) {
                let query = input.clone();
                (
                    SearchState { input, suggestions, show_suggestions, loading: true, epoch: next },
                    SearchAction::Geocode { query, epoch: next },
                )
            } else {
                (SearchState { input, suggestions, show_suggestions, loading, epoch: next }, SearchAction::Nothing)
            }
        },
        SearchEvent::Pick { index } => {
            if index < suggestions.len() {
                let chosen = suggestions[index].clone();
                assert(crate::text::views(suggestions@)[index as int] == suggestions@[index as int]@);
                let r = SearchState { input: chosen, suggestions: Vec::new(), show_suggestions: false, loading, epoch };
                assert(crate::text::views(r.suggestions@) =~= Seq::<Seq<char>>::empty());
                (r, SearchAction::Select { index, drop: true })
            } else {
                (SearchState { input, suggestions, show_suggestions, loading, epoch }, SearchAction::Nothing)
            }
        },
        SearchEvent::Clear => {
            let r = SearchState {
                input: String::new(),
                suggestions: Vec::new(),
                show_suggestions: false,
                loading,
                epoch,
            };
            assert(crate::text::views(r.suggestions@) =~= Seq::<Seq<char>>::empty());
            (r, SearchAction::Cleared)
        },
    }
}

/// An answer to a search started before the current generation leaves the
/// box as it is and asks for nothing; in particular, after a submit no
/// answer to a search started earlier is shown.
pub proof fn lemma_stale_answer_ignored(
    s: (Seq<char>, Seq<Seq<char>>, bool, bool, u64),
    tag: u64,
    labels: Option<Vec<String>>,
)
    requires
        tag != s.4,
    ensures
        next_view(s, SearchEvent::Answer { epoch: tag, labels }) == s,
        action_of(s, SearchEvent::Answer { epoch: tag, labels }, SearchAction::Nothing),
{
}

/// A submit moves to a generation later than any search started before it.
pub proof fn lemma_submit_starts_generation(s: (Seq<char>, Seq<Seq<char>>, bool, bool, u64))
    requires
        s.4 < u64::MAX,
    ensures
        next_view(s, SearchEvent::Submit).4 == s.4 + 1,
        forall|tag: u64, labels: Option<Vec<String>>| tag <= s.4 ==> #[trigger] next_view(
            next_view(s, SearchEvent::Submit),
            SearchEvent::Answer { epoch: tag, labels },
        ) == next_view(s, SearchEvent::Submit),
{
}

/// When the text has settled on fewer than three UTF-8 bytes, the box asks
/// for no search, holds no suggestions and closes the list, whatever it
/// showed before; its text stays, and a following submit selects nothing.
pub proof fn lemma_short_text_closes_list(s: (Seq<char>, Seq<Seq<char>>, bool, bool, u64), q: String)
    requires
        vstd::utf8::encode_utf8(q@).len() < 3,
    ensures
        next_view(s, SearchEvent::Settled(q)).0 == s.0,
        next_view(s, SearchEvent::Settled(q)).1 == Seq::<Seq<char>>::empty(),
        !next_view(s, SearchEvent::Settled(q)).2,
        action_of(s, SearchEvent::Settled(q), SearchAction::Nothing),
        forall|a: SearchAction|
            #[trigger] action_of(next_view(s, SearchEvent::Settled(q)), SearchEvent::Submit, a) ==> !(a is Select),
        next_view(next_view(s, SearchEvent::Settled(q)), SearchEvent::Submit).0 == s.0,
{
}

/// A submit with the list open takes the first suggestion as the text and
/// closes the list; a click on a listed suggestion takes it as the text and
/// drops the suggestions; the clear button empties the text and the
/// suggestions; an answer to the current search lists its labels.
pub proof fn lemma_choices(s: (Seq<char>, Seq<Seq<char>>, bool, bool, u64), index: usize, labels: Vec<String>)
    ensures
        s.1.len() > 0 && s.2 ==> next_view(s, SearchEvent::Submit).0 == s.1[0] && !next_view(s, SearchEvent::Submit).2
            && action_of(s, SearchEvent::Submit, SearchAction::Select { index: 0, drop: false }),
        index < s.1.len() ==> next_view(s, SearchEvent::Pick { index }).0 == s.1[index as int] && next_view(
            s,
            SearchEvent::Pick { index },
        ).1.len() == 0 && !next_view(s, SearchEvent::Pick { index }).2,
        next_view(s, SearchEvent::Clear).0.len() == 0 && next_view(s, SearchEvent::Clear).1.len() == 0 && !next_view(
            s,
            SearchEvent::Clear,
        ).2,
        next_view(s, SearchEvent::Answer { epoch: s.4, labels: Some(labels) }).1 == crate::text::views(labels@)
            && next_view(s, SearchEvent::Answer { epoch: s.4, labels: Some(labels) }).2 && !next_view(
            s,
            SearchEvent::Answer { epoch: s.4, labels: Some(labels) },
        ).3,
{
}

} // verus!
