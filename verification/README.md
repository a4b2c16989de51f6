# digikam_browse

A web backend for browsing a Digikam photo database, with its logic verified
by Verus.

- `src/` — the verified library: album paths and album-root identifiers
  (`paths`), the natural name order used as the `NATSORT` collation
  (`natural`), the view filters (`filters`), the SQL of the photo, random and
  sub-album listings and the mapping of their rows (`query`), the tag tree
  (`tags`), the request decisions of the HTTP endpoints — parameters, ETags,
  `If-None-Match`, `Content-Disposition`, bookmarks and their storage
  (`handlers`), and the content hashes of the static assets (`web`).
  `outside` holds the calls into `urlencoding`, `mime_guess`, `serde_json`
  and `http`, each with the contract the library relies on.
- `app/` — the server around it: command line, SQLite pools, the axum
  router and handlers, the Yandex upload, the HTML shell and the assets.
- `tests/` — tests of the library on concrete values.
