# ci_web

A CGI front end for a kernel CI job server: it lists the branches under
test, shows the log of a branch (one row per tested commit) and the results
of one commit (one row per test).

- `src/` is the verified library (Verus):
  - `text.rs`: character-level string helpers (decoding, decimal numbers,
    substring search, lexicographic order, white space and words, first line);
  - `status.rs`: test statuses, their labels and row classes, reading a test
    result from the contents of its status and duration files;
  - `pattern.rs`: regular expressions (`regex`) with the text they were compiled from;
  - `filter.rs`: the test-name filter and the sorted
    results of a commit's tests;
  - `walk.rs`: which commits of a branch's history the log lists;
  - `branches.rs`: the branch names taken from the list of branches under test;
  - `query.rs`: the query string (read with `querystring`) and the page it asks for;
  - `html.rs`: the three pages, each stated exactly as text.
- `app/` is the CGI program: configuration, the git repository (`git2`), the
  job server's output directory, the request and the response (`cgi`).
  The HTML of the test filter form on commit pages is read at run time from
  the file `commit-filter` in the working directory.
- `tests/` holds the tests of the library.
