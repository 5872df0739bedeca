# vmstart

Starts, stops and lists local virtual machines through VMware's `vmrun` tool.

- `src/` is the verified library (Verus): text helpers, the name-keyed machine
  table, directory scanning, the JSON configuration model, command-line
  parsing and the decision of what each command does (`command::Effect`).
- `app/` is the program around it: file-system listings, prompts, the
  configuration file (serde), and running `vmrun`.
- `tests/` exercises the library on concrete values.
