# rolldown_core

Verified core logic of a JavaScript bundler's module graph and plugin
driver, written in Verus.

- `src/module.rs` — normal modules and their queries: star exports,
  interop, Node ESM rules, virtual ids, tree-shaking dumps, the module info
  that plugins see (with importers sorted), print options for rendering.
- `src/exported_names.rs` — `GetExportedNames` along `export *` edges, with
  its result characterised as the least set closed under those edges.
- `src/hmr.rs` — what the scanner records from `import.meta.hot.accept(...)`.
- `src/plugin_driver.rs`, `src/sourcemap.rs` — which plugins each hook
  asks, how transform results fold into a module, and how transform
  sourcemaps are completed (through `oxc_sourcemap` and `string_wizard`).
- `src/manifest.rs` — how assets are keyed in the manifest.
- `src/text.rs` — string equality, prefixes, and the order of `str`.
- `app/` — async hook loops, AST conversion from `oxc`, JSON output.
