# rls_analysis

Queries over the analysis data that the compiler saves for a project: where a
name is defined and used, its type and documentation, the outline of a file, the
children and ancestors of a definition, and where its documentation and source are
on the web.

- `src/` is the library. Its functions are verified with Verus against the
  contracts in their headers, which speak of mathematical views of the data
  (`HostView`, `AnalysisView`, `CrateView` and so on). Taken on trust are the clock,
  `String::push`, the hash of a string and three conversions of `rls_span`.
  - `host`, `queries`: `AnalysisHost`, its reloads and its queries.
  - `analysis`, `per_crate`, `table`: what is known of a project and of each crate.
  - `raw`, `lowering`: the data as it is saved, and how it becomes part of a project.
  - `loader`, `reading`: where the data lies and which files are to be read.
  - `urls`: addresses on the web.
  - `chains`: whether the ways that some queries go come to an end.
  - `laws`, `query_laws`: what holds of the library as a whole.
- `tests/` runs the library on concrete data.
- `app/` is a small program that reads the saved files and searches them.

A host is asked and reloaded by one owner at a time. The state behind its locks can
be marked as poisoned (`poison_analysis`, `poison_master_crate_map`) by whoever
shares the host between threads and sees a holder panic. Crates are asked in the
order in which they were first loaded.
