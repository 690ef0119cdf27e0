# herdr_layout

Three saved tab layouts for Herdr. A layout slot (`1`, `2`, `3`) names a list of tab
targets (a label and a shell line); applying it reuses or creates Herdr tabs until each
target exists and runs. A repo may override slots with a nearest-ancestor
`.herdr-layout.yaml` or `.herdr-layout.yml`.

## Layout

- `src/` — the library, verified with Verus.
  - `config.rs`: slots, command-line modes, parsing (through `serde_yaml`) and validation of
    the YAML configuration,
    the repo override search, and which layout a slot selects.
  - `plan.rs`: planning the Herdr operations that apply a layout.
  - `names.rs`: program names of shell lines and processes; running and idle panes.
  - `response.rs`: parsing JSON (through `serde_json`) and reading Herdr's replies and the
    plugin context record.
  - `herdr.rs`: the plugin context, the `herdr` command lines, what a finished `herdr`
    run means, and the workspace snapshot.
  - `text_map.rs`, `search.rs`, `text.rs`, `model.rs`: maps keyed by text, first-match
    search, character-level text functions, and the data types with their views.
  - `laws.rs`: properties of the library as a whole.
- `app/main.rs` — the program: arguments, environment, files, the ancestor directories
  probed for an override, running `herdr`, printing.
- `tests/` — tests of the library.
