# libcitesync

The verified core of CiteSync, a server that shares a research bibliography
(BetterBibTeX JSON exports and BibTeX files) as OPDS catalogs.

- `src/` — the library, verified with Verus:
  - `item`, `errors`: research items, authors, files and their kinds;
  - `json`: the JSON values the bibliography logic reads, and parsing them;
  - `bib`: research items from BibTeX entries and BetterBibTeX JSON;
  - `crossref`, `graph`: the abbreviations and the `crossref` / `xdata` links of a
    BibTeX source, checked for cycles before the source is resolved;
  - `index`, `state`: the cached bibliography with its author and tag indexes,
    and the decision whether to read it again;
  - `opds`: Atom feed model, OPDS entries and catalogs, the feed of each
    catalog route, the sample catalogs, and writing feeds as Atom XML;
  - `content`, `config`, `tags`, `sort`, `text`: smaller pieces.
- `app/` — the server and client programs: HTTP routes and file access.
- `tests/` — tests of the library on concrete values.
