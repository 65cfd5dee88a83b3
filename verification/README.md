# xtask-todo-lib

A todo-list library (create, list with filters and sorting, search, complete with recurrence,
delete) and the path and configuration logic of a development shell that works against a Lima
VM workspace, written in Verus. Verus proves the contracts of the functions in `src/`, except
for twelve trusted wrappers marked `#[verifier::external_body]` (the clock, `String::push`,
`str::to_lowercase`, seven `chrono::NaiveDate` calls and two `serde_json` reads of `cargo metadata`
output) and the declared `chrono::NaiveDate` type, whose contracts are believed as written.

- `src/list.rs`, `src/store.rs`, `src/query.rs`, `src/model.rs`: the todo list, its in-memory
  store, filtering and ordering, modelled as maps from ids to todo values.
- `src/repeat.rs`, `src/priority.rs`: recurrence rules (calendar steps through `chrono`) and
  priorities, with their text forms.
- `src/text.rs`: string operations stated over character sequences.
- `src/laws.rs`: properties that span several operations.
- `src/devshell/vm`: guest path normalization, the guest file operations and an in-memory guest
  file tree, VM configuration, session selection, `lima.yaml` checks, hint selection and the
  bootstrap sequences (guest build-essential, guest `todo` hints, Podman sidecar) as state
  machines.
- `src/devshell/workspace`: mapping logical workspace paths onto the guest mount.
- `app/`: environment variables, `limactl` and `cargo` processes and printed messages around the
  library.
