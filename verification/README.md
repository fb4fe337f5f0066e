# media_elo

A small tool for ranking media entries (books, shows, games, …) by Elo from
pairwise votes: an HTTP server over SQLite and a terminal client.

- `src/` is the verified library (Verus): the list's filters and ordering,
  pair selection and its history, the forms and the keys that drive every
  screen, the type catalogue's checks, the statistics, the state line and
  the placements on screen. Every public function carries a contract, and
  the laws that tie several functions together (a vote taken back, the type
  filter cycled back, a status toggled five times, …) are public proof
  functions.
- `app/` is the program around it: `media_elo server` (axum, rusqlite, CSV
  import) and `media_elo client` (ratatui, crossterm, reqwest). It carries
  out the I/O the library asks for and the floating-point Elo arithmetic.
- `tests/` exercises the library on concrete values.

Ratings are floating-point numbers in the program; the library sees each as
an unsigned key whose integer order is the rating's numeric order, and each
UUID as the 128-bit integer it encodes.
