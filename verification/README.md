# model_repair

A tool that repairs probabilistic models written in the PRISM language so that they meet
their properties. A model marks the places that may change with `repair(...)` calls, or
marks modules that may be replaced by a synthesised controller; the tool turns these into
variables, lets the PRISM model checker (or `prism-games`) choose values for them, and
writes the repaired model.

The library in `src/` is verified with Verus: each public function states what it returns
or changes, and the properties that relate several functions are proof functions named
`law_...`.

- `prism/`: the parts of a model that the repair logic reads and rewrites, the order in
  which the model checker lists variables, and the reading of its results.
- `model_manipulation.rs`: addressing and replacing sub-expressions of a model.
- `context/`, `repairs/`: the values a place may take, the `repair(...)` calls and their
  parameters, and the wiring of a model's repairs into repair variables.
- `applied_repairs.rs`, `html.rs`: the fixes and costs of a chosen repair, and the HTML
  report that shows them.
- `pipeline/`: the marks a model must carry before repair, and the step-by-step repair
  problem with its task graph.
- `engine/`: task graphs and repair graphs of the concurrent workflow, its log of tool calls,
  reading the model checker's output, and controller synthesis (`engine/synthesis/`).
- `gui/`: the logic of the graphical front end: tabs, window sections and the layout grid.
- `text.rs`: string helpers with exact contracts (splitting, trimming, integer parsing and
  printing).

`app/` is the command-line program around the library: it reads the model and its
properties, runs the external tools, and writes the result. `tests/` exercises the library
on concrete values.
