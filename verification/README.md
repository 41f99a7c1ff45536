# vexy_svgo_plugin_sdk

SVG optimisation plugins and the plugin registry, written in Verus and proved
against their contracts.

## Layout

- `src/` — the verified library.
  - `ast.rs`: the document tree (elements, attributes as ordered maps, nodes) and its
    mathematical model.
  - `walk.rs`: verified tree traversals (rewriting elements, pruning children,
    rewriting after the children) that the plugins share.
  - `text.rs`, `refs.rs`: text helpers and the grammar of ID references.
  - `css.rs`, `pattern.rs`: the calls into `lightningcss` and `regex`, behind trusted
    wrappers whose results are named, and the verified descent into `@media` rules.
  - `registry.rs`: plugin metadata, statistics and the registry index (registration,
    aliases, dependency checks, execution order).
  - `runner.rs`: the decisions of running a list of plugin descriptors (skip, refuse,
    check parameters, apply, stop).
  - `plugins/`: one module per plugin; each `apply` states the document it leaves.
- `tests/` — tests of the library.
- `app/` — the parts that are not verified: the `Plugin` trait and the registries of
  trait objects, JSON configuration (serde), and the plugins whose work is binary
  floating point (transforms, shapes, path data, numeric rounding).
