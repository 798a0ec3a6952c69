# trakt-letterboxd

Syncs watched history, ratings, watchlists and reviews between Trakt and
Letterboxd.

- `src/` is the library, verified with Verus: the Letterboxd export parser,
  the CSV files for Letterboxd's importers, title+year matching against
  Trakt search results, the idempotency store, the planning of both sync
  directions (bulk-import days, films already on Trakt, what Letterboxd
  already holds), the order of each run's writes and what they record, the
  run summaries, configuration and the OAuth decisions.
- `app/main.rs` is the command line program around it: HTTP, files, the
  clock, JSON, and the float rating conversion.
- `tests/` exercises the library through its public API.
