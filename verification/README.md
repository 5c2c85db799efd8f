# siyuan_harness

An agent-facing harness for the SiYuan note kernel, with its core logic
proved correct in Verus.

- `src/` is the verified library: block ids and types, block metadata and
  document bundles, pagination, heading sections and container children,
  document lookup and tree assembly, the agent markdown renderers, tag
  search, link-graph traversal (as a state machine that decides each query
  and absorbs its rows), read-only SQL screening, tool-call argument
  handling, the tool table (names, descriptions, argument schemas) with
  the lookup from a called name to its tool, the request each tool makes,
  and the pure parts of the
  container test kit (run arguments, tokens, stale-workspace decisions).
  Calls into `regex`, `sqlparser` and `serde_json` stand behind small
  trusted wrappers whose contracts say what those crates do.
- `app/` is the unverified shell: the MCP server binary, which lists the
  library's tool table and dispatches each call on its tool, the HTTP client for
  the kernel, the async loops that feed kernel replies to the library, JSON
  (de)serialisation of the library's types, and the podman/filesystem side
  of the test kit.
- `tests/` runs the library on concrete inputs.
