# git_refresh

Scheduling and batching of Git status refreshes for a terminal workspace
manager, verified with Verus.

- `src/app.rs`: when a refresh is due, what it looks at, and how requests and
  the end of a refresh change that.
- `src/sidebar.rs`, `src/workspace.rs`: the layouts and workspaces that decide
  what is displayed and where.
- `src/refresh.rs`: grouping of refresh items into one job for each checkout.
- `src/output.rs`: from the answers of Git to the results for workspace rows and
  panes, and the refresh as a whole.
- `src/status.rs`, `src/cache.rs`, `src/path.rs`: status values, the cache of
  answers, and paths as components, whose names are bytes.
- `src/pairs.rs`, `src/views.rs`: maps held as sequences of pairs, and views.
- `src/scheduling_laws.rs`, `src/batching_laws.rs`: what holds of the scheduler
  and of a refresh as a whole, as proofs.
- `app/`: the clock, operating system paths and the thread a refresh runs on.

Beyond Verus and its standard library, `src/` trusts one thing: what
`String::from_utf8_lossy` makes of the name of a directory, which can become the
label of a workspace. Finding the checkout of a directory and asking Git about a
checkout are closures of the caller; the contracts hold whatever they answer.
