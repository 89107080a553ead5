# belt

B.E.L.T. benchmarks Factorio saves: it runs the game headless for a number of
ticks, collects the timings, and writes CSV files and a Markdown report. It
also prepares saves with the Belt-Sanitizer mod and builds blueprints in a
base save.

The library in `src/` is verified with Verus. It holds the logic of the tool:

- `common::property_tree` and `common::settings`: the binary format of
  `mod-settings.dat`, with proofs that saving and reading gives the settings
  back and that reading, changing with `set` and saving again keeps every
  change.
- `common::factorio`: the command lines Factorio is run with, how its output
  is split and judged, and when a save counts as written.
- `common::output`: run indexes of appended CSV files, header checks, the
  per-tick metrics export and the Markdown of the report.
- `benchmark`: the run schedule (grouped, sequential or random, all holding
  the same jobs), the fields of Factorio's benchmark log (version, last
  timing lines, allocator statistics) and the reading of AMD uProf reports,
  with their limits on tables, rows and cells.
- `sanitize` and `blueprint`: the mod settings of sanitizer and blueprint
  runs and what their results report.
- `common::platform`, `common::utils`, `common::config`, `common::error`:
  default directories, file checks, configuration defaults and error text.

Calls into the `csv`, `regex` and `rand` crates and a few std functions are made
through small trusted wrappers whose contracts state what their
documentation promises.

`app/` is the command-line program around the library: argument parsing,
configuration files, file and process I/O, and the parts that compute on
floating-point numbers. `tests/` exercises the library.
