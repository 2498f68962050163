# scrape-rs

A small web scraping library, verified with Verus: worker pools that fetch pages
concurrently, and CSS-selector-based HTML parsing.

- `src/` is the verified library. `pool`, `queue`, `handle` and `state` decide
  which job a worker gets, where its result goes and what readers are handed;
  `fetch` decides which request is sent and how long it may take; `parsers` and
  `quotes` query pages. `laws`, `runs` and `history` state and prove what holds
  over several calls, for any interleaving of callers, workers and readers.
- `app/` owns the threads, locks, sockets and error messages, and a thread-local
  cache of compiled selectors.
- `tests/` runs the library with the real outside crates; requests go through a
  server in memory.

What is trusted, not proved, is marked `external_body` and says so in its doc
comment: the calls into `scraper` (parsing, selecting, serializing) and into
`ureq` (building requests, reading an agent's timeout).
