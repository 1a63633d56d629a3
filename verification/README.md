# homerunner

Keeps a warm pool of ephemeral GitHub Actions runners on one machine. For every
configured repo it holds `reserved` one-job runners listening in containers,
bursts up to `max` while jobs are queued, lets idle burst runners decay, records
every job in a journal, keeps the logs (and, on failure, the workspace) of what
ran, and tidies up by age, number and size.

## Layout

- `src/` is the library: everything that decides, parses or computes, verified
  with Verus. It takes plain values and gives plain values back.
  - `scheduler` is the pool: reservations, bursts, decay, recovery, the end of a
    runner, the live view of its output.
  - `store` is the journal, `cleanup` reconciles it with what is on disk.
  - `config` reads settings, `setup` writes them and checks a machine, `runtime`
    speaks the container runtimes' commands, `github` the jobs API.
  - `agent`, `log_search` and `mcp` answer questions about jobs and their logs,
    `monitor` raises alarms, `web` is what the dashboard shows, `logging` rotates
    the service log.
  - `text`, `number`, `binary`, `order`, `paths`, `tree` and `clock` are what the
    others are built from; `json` and `pattern` call `serde_json` and `regex`.
- `app/` is the program around it: processes, files, HTTP, SQLite, the command
  line.
- `tests/` runs the library on concrete values.

What the library promises as a whole stands in the proof functions whose names
begin with `law_`. What it takes on trust of other crates and of the standard
library stands in the functions marked `external_body` and in the one
`assume_specification`, each with a comment that says what is claimed.

Times are microseconds since the epoch, processor shares percent in decimal
notation, and peak memory whole mebibytes.
