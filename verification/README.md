# agwiki

An agent-driven markdown wiki: sources are ingested by an agent into a
content model under `content/`, which is then materialized into a browsable
wiki, an Agent Skill bundle or static HTML. The wiki can be checked for
broken links and orphan pages and browsed through a small local web server.

## Layout

- `src/` — the library, verified with Verus. Every decision the tool takes is
  here, with its contract: link scanning and resolution (`upkeep`), the
  validation report (`validate`), compile planning, slugs and the entity
  catalog (`compile`, `slug`, `marker`), the skill index (`export_skill`,
  `skill_template`), the ingest ledger, source identity (external ids
  first, from `--external-id` or front matter) and folder runs (`ingest`),
  rendering of the ingest event stream and dry-run plans (`ingest_render`), the
  search index, page resolution and markdown rendering (raw HTML dropped) of
  the server (`search`, `serve`), the command line's checks (`cli`,
  `config`, `init`, `toolkit`), and the
  lifecycle hooks' variables and exit handling (`hooks`).
  Laws that span functions are public proof functions named `law_*`.
- `app/` — the `agwiki` command: argument parsing, file and network I/O,
  running agents through aikit-sdk, the axum server, and the serde forms of
  the library's types.
- `tests/` — tests of the library.
