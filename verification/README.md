# Berlin Gymnasien

A site for comparing the Gymnasien (grammar schools) of Berlin: a listing
with filters, sort orders and travel times from an address, a page per
school, a map, and six infographics. The logic lives in a library verified
with Verus; a thin Leptos app in the browser reads and writes the location,
local storage and the network, and draws the pages.

## Layout

- `src/` — the verified library:
  - `models` — the school model, sort fields, the option lists of the filters;
  - `listing` — filters, the stable listing order, the query string of the
    filter state; `url_state` — the law that reading that query string gives
    the state back;
  - `hash_router` — `#/path?query` locations, routes, URI components;
  - `address_search` — the address box as a state machine;
  - `address_state` — the saved address in local storage, and the laws that
    it reads back as written;
  - `geocoding`, `routing` — suggestion labels, service addresses, and the
    travel-time table;
  - `display` — labels, colours, popups and map pins;
  - `i18n` — the German and English texts;
  - `infographics` — the figures of the six cards, and the card viewer;
  - `district_rank`, `natural` — the exact district ranking, and the
    natural numbers of any size it compares;
  - `text` — strings as character sequences: search, split, join, replace,
    order, decimals.
- `tests/` — tests of the library.
- `app/` — the browser app (not verified).

## Numbers

The library has no floating point. Decimal measurements (Abitur grades,
pass rates, demand ratios, ratings, completeness) are held as whole
thousandths — `1.85` is `1850`, a pass rate of `97.5`% is `97500` — and
coordinates as millionths of a degree. Averages are exact fractions
(`Ratio`); the district ranking compares its weighted scores exactly
(`district_rank`), and the group comparison its mean numbers of students
per teacher, both with the limb arithmetic of `natural`. Turning figures
into decimals for display, and the few that are floating point by nature
(a correlation coefficient, rounding seconds to minutes), are left to the
app.
