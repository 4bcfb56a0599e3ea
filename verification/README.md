# gitexplore

A verified core for exploring GitHub follower graphs: the shared graph of public users and
repositories, each app user's private bookmarks, categories, snapshots and exploration
trails, the identity store's sessions and browser logins, and the rules that protect the
GitHub REST budget. Every function under `src/` is proved with Verus against its
`requires`/`ensures` contract.

Layout:

- `src/store.rs`, `src/imports.rs`, `src/aliases.rs`, `src/keyed.rs`: the shared graph,
  coverage-aware imports, and rename-safe aliases for logins and full names.
- `src/candidates.rs`, `src/ranking.rs`, `src/discovery.rs`: repository candidates around a
  user and the reasons they are ranked for.
- `src/trails.rs`, `src/activity.rs`, `src/exploration.rs`, `src/bookmarks.rs`: private
  exploration state.
- `src/crawl.rs`, `src/warmup.rs`, `src/warmup_table.rs`, `src/scheduler.rs`,
  `src/budget.rs`, `src/capacity.rs`, `src/paging.rs`: crawling and warmups that keep the
  REST reserve and the graph's capacity, and the decisions of the warmup scheduler.
- `src/identity.rs`, `src/identity_store.rs`, `src/sessions.rs`, `src/secrets.rs`,
  `src/sealed.rs`: browser logins, account links, sessions and secrets at rest.
- `src/insights.rs`, `src/insight_store.rs`: contributor and commit-activity insights.
- `src/cli.rs`, `src/config.rs`, `src/web.rs`, `src/graphql.rs`, `src/commands.rs`: the
  command line, settings, cookies and origins, and API objects.
- `src/external.rs`, `src/text.rs`: the calls into `url`, `base64`, the cryptography crates
  and `uuid`, and text helpers over std.
- `app/`: the command-line program around the library (files, clock, ids, JSON output).
- `tests/`: tests of the library.
