//! Logic of the Berlin Gymnasien comparison site: the school model,
//! filtering and ordering of the listing, query strings, interface texts,
//! and the figures behind the infographics.
use vstd::prelude::*;

pub mod address_search;
pub mod address_state;
pub mod display;
pub mod district_rank;
pub mod geocoding;
pub mod hash_router;
pub mod i18n;
pub mod infographics;
pub mod listing;
pub mod models;
pub mod natural;
pub mod routing;
pub mod text;
pub mod url_state;

verus! {
} // verus!
