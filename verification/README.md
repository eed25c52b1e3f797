# issue_viewer

A desktop viewer for GitHub sub-issues: sign in with the OAuth device flow,
pick a repository, and browse its open and closed issues nested by GitHub's
parent/child links, from a local SQLite cache that is refreshed in the
background.

The library under `src/` holds the viewer's logic, each function with a
contract that Verus proves:

- `tree` nests issue rows into a forest (`is_forest`), with termination
  proved for unique issue numbers;
- `filter` is the search box (`is:open`, `is:closed`, `#N`, title words) and
  the stable sort by creation or update time, with the laws that the result
  is in list order and is exactly the matching rows, that a space-joined
  query matches what both parts match, and that with distinct times the
  descending list is the ascending one reversed;
- `md` lays out a Markdown issue body as text, code and rule blocks from the
  events of `pulldown-cmark`;
- `auth`, `sync`, `app` decide the device-flow polling, the refresh
  (which pages, replace or merge), and how the window's state changes on each
  message and click, with at most one refresh running at a time;
- `i18n`, `timefmt`, `github`, `token`, `model` and `text` hold the texts,
  time display, GraphQL page conversion, token store, rows and character
  helpers.

`app/` is the program around it: the egui window, HTTPS calls, the SQLite
cache, the OS keyring, and the threads that run the work the library asks for.
