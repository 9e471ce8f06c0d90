# dbtp

A command-line client for the dbt Cloud platform APIs (Admin, Discovery and
Semantic Layer), built around a library whose logic is verified with Verus.

## Layout

- `src/` — the verified library. Every decision the tool makes is here, with
  its contract:
  - `json`, `text`, `lists`, `graph` — documents, texts and graphs, with their
    mathematical models;
  - `config`, `setup` — settings, their precedence, the config commands and the
    first-time setup;
  - `rest`, `graphql`, `types` — request addresses, headers and bodies, paging,
    and reading answers;
  - `admin`, `audit`, `system` — jobs, runs, projects, environments, artifacts,
    audit logs and self-update;
  - `discovery`, `lineage`, `columns`, `impact` — the Discovery API: models,
    node and column lineage, and the impact of changed models on public models;
  - `semantic` — Semantic Layer queries and result polling;
  - `output` — output formats and the shape of tables;
  - `cli` — the commands and their options as plain values.
- `tests/` — tests of the library on concrete values.
- `app/` — the executable: argument parsing (clap), HTTP (reqwest), files,
  terminal prompts, table layout (tabled) and Arrow decoding. It performs what
  the library decides.

## GraphQL documents

The tool sends GraphQL documents read at run time from the directory named by
`DBTP_QUERIES_DIR`, or from `queries/` beside the executable (for example
`get_models.graphql`, `get_full_lineage.graphql`, `create_query.graphql`).

## Settings

Settings are taken from command-line flags, then environment variables
(`DBTP_HOST`, `DBTP_TOKEN`, `DBTP_ACCOUNT_ID`, `DBTP_ENVIRONMENT_ID`, ...),
then the config file, then defaults. The config file is either flat
(`[connection]` and `[defaults]` tables) or holds named profiles
(`[profile.NAME]` tables, with `[defaults] profile = "NAME"`); with profiles,
the one named by `--profile` is used, else the default one, and its `host`,
`token`, `service_token`, `account_id`, `project_id` and `environment_id` are
read. A profile-based file is read as it is; `config set` and `configure`
write the flat form.
