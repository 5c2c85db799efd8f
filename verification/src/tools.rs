//! The tools the MCP server offers: each tool's name, its description for
//! agents and the JSON schema of its arguments, and the lookup from a
//! called name to the tool.

use vstd::prelude::*;

use crate::text::{has_prefix, owned, str_eq};

verus! {

/// How many tools the server offers.
pub const TOOL_COUNT: usize = 25;

/// One tool as it is listed to clients.
#[derive(Debug)]
pub struct ToolSpec {
    pub name: String,
    pub description: String,
    pub input_schema: String,
}

impl View for ToolSpec {
    type V = (Seq<char>, Seq<char>, Seq<char>);

    open spec fn view(&self) -> (Seq<char>, Seq<char>, Seq<char>) {
        (self.name@, self.description@, self.input_schema@)
    }
}

/// The tools, one variant each, in listing order.
#[derive(Debug, Clone, Copy, PartialEq, Eq, Structural)]
pub enum ToolKind {
    /// `siyuan_status`
    Status,
    /// `siyuan_doc_get`
    DocGet,
    /// `siyuan_block_get`
    BlockGet,
    /// `siyuan_doc_create`
    DocCreate,
    /// `siyuan_block_update`
    BlockUpdate,
    /// `siyuan_block_insert`
    BlockInsert,
    /// `siyuan_block_move`
    BlockMove,
    /// `siyuan_block_delete`
    BlockDelete,
    /// `siyuan_attrs_get`
    AttrsGet,
    /// `siyuan_attrs_set`
    AttrsSet,
    /// `siyuan_notebook_ls`
    NotebookLs,
    /// `siyuan_notebook_create`
    NotebookCreate,
    /// `siyuan_notebook_rename`
    NotebookRename,
    /// `siyuan_notebook_remove`
    NotebookRemove,
    /// `siyuan_doc_resolve`
    DocResolve,
    /// `siyuan_doc_tree`
    DocTree,
    /// `siyuan_doc_rename`
    DocRename,
    /// `siyuan_doc_move`
    DocMove,
    /// `siyuan_doc_remove`
    DocRemove,
    /// `siyuan_tag_ls`
    TagLs,
    /// `siyuan_tag_search`
    TagSearch,
    /// `siyuan_search_text`
    SearchText,
    /// `siyuan_sql`
    Sql,
    /// `siyuan_asset_upload`
    AssetUpload,
    /// `siyuan_graph_neighborhood`
    GraphNeighborhood,
}

/// Description of `siyuan_status`.
pub const DESC_STATUS: &'static str = "Return the SiYuan kernel version and confirm the server is reachable.\n\nSibling tools: this is the only health-check tool — every other tool assumes the kernel is up. Call this first if you see connection-refused or auth errors elsewhere.\n\nInputs: none required (extra properties ignored).\n\nExample:\nin:  {}\nout: { \"version\": \"3.1.0\" }";

/// Argument schema of `siyuan_status`.
pub const SCHEMA_STATUS: &'static str = "{\"type\":\"object\",\"properties\":{},\"additionalProperties\":true}";

/// Description of `siyuan_doc_get`.
pub const DESC_DOC_GET: &'static str = "Load a SiYuan document by its ROOT block id and return it as agent-markdown or a structured JSON bundle.\n\nSibling tools: `siyuan_block_get` returns ONE block's raw kramdown — use that when you need a single block's storage syntax, not a whole document. `siyuan_doc_resolve` translates hpath<->id (this tool requires an id, not an hpath). `siyuan_search_text` finds candidate ids by content.\n\nInputs: `id` (required) is a document ROOT block id (14-digit timestamp + 7-char suffix); not an hpath. `page` (optional, default 1) is 1-indexed in DFS document order. `page_size` (optional, default 50) is capped at 1000. `format` (optional, default `agent-md`) is one of `agent-md` (compact markdown with `<!-- sy:* -->` HTML-comment block markers), `json`, or `json-pretty`. When `total_pages > page` the response is wrapped with a `_hint` instructing the next-page fetch.\n\nExample:\nin:  { \"id\": \"20260501090000-doc0001\", \"format\": \"json\" }\nout (last/only page): { \"format\": \"json\", \"content\": \"<stringified json bundle>\" }\nout (more pages):     { \"data\": { \"format\": \"json\", \"content\": \"<stringified json bundle>\" }, \"_hint\": \"Pagination: this is page 1 of 3. Call again with page=2 to fetch the next page. ...\" }";

/// Argument schema of `siyuan_doc_get`.
pub const SCHEMA_DOC_GET: &'static str = "{\"type\":\"object\",\"required\":[\"id\"],\"properties\":{\"id\":{\"type\":\"string\",\"description\":\"Document block id\"},\"page\":{\"type\":\"integer\",\"default\":1},\"page_size\":{\"type\":\"integer\",\"default\":50},\"format\":{\"type\":\"string\",\"enum\":[\"agent-md\",\"json\",\"json-pretty\"],\"default\":\"agent-md\"}},\"additionalProperties\":true}";

/// Description of `siyuan_block_get`.
pub const DESC_BLOCK_GET: &'static str = "Fetch the raw kramdown source of a single block by id.\n\nSibling tools: `siyuan_doc_get` returns the rendered document tree — reach for that to read a whole document. `siyuan_attrs_get` returns just the attribute map; this tool returns the kramdown body. `siyuan_search_text` finds candidate ids when you do not have one yet.\n\nInputs: `id` (required) is any block id (paragraph, heading, list item, document root, etc.). NotFound is returned if the id does not exist.\n\nExample:\nin:  { \"id\": \"20260501090000-doc0001\" }\nout: { \"id\": \"20260501090000-doc0001\", \"kramdown\": \"# Heading\\n\\nBody\\n\" }";

/// Argument schema of `siyuan_block_get`.
pub const SCHEMA_BLOCK_GET: &'static str = "{\"type\":\"object\",\"required\":[\"id\"],\"properties\":{\"id\":{\"type\":\"string\",\"description\":\"Block id\"}},\"additionalProperties\":true}";

/// Description of `siyuan_doc_create`.
pub const DESC_DOC_CREATE: &'static str = "Create a new document in a notebook from GFM markdown.\n\nSibling tools: `siyuan_block_update` replaces an existing block in place; `siyuan_block_insert` add blocks under an existing document. Reach for siyuan_doc_create only to mint a NEW document.\n\nInputs: `notebook` (required) is a notebook id from `siyuan_notebook_ls`. `hpath` (required) is a HUMAN path inside the notebook, e.g. `/Folder/Title`; must start with `/`. NOT to be confused with on-disk storage paths (`.sy`-suffixed) — hpaths are titles separated by `/`, storage paths look like `/20260501090000-abc1234.sy`. Intermediate folders are auto-created. `markdown` (required) is GFM markdown stored verbatim. The response envelope contains the new document's root block id under `data.id`, accompanied by a `_hint` string.\n\nSiYuan indexes mutations asynchronously; SQL-based reads (siyuan_sql, siyuan_search_text, siyuan_tag_search) may show stale data for ~100-500 ms after this call. The kernel is immediately consistent — only the SQL index lags.\n\nExample:\nin:  { \"notebook\": \"20260501000000-nb00001\", \"hpath\": \"/Plan\", \"markdown\": \"# Plan\\n\" }\nout: { \"data\": { \"id\": \"20260501090000-doc0001\" }, \"_hint\": \"Mutation completed at the kernel. ...\" }";

/// Argument schema of `siyuan_doc_create`.
pub const SCHEMA_DOC_CREATE: &'static str = "{\"type\":\"object\",\"required\":[\"notebook\",\"hpath\",\"markdown\"],\"properties\":{\"notebook\":{\"type\":\"string\"},\"hpath\":{\"type\":\"string\",\"description\":\"Human path e.g. /Folder/Title\"},\"markdown\":{\"type\":\"string\"}},\"additionalProperties\":true}";

/// Description of `siyuan_block_update`.
pub const DESC_BLOCK_UPDATE: &'static str = "Replace the full content of an existing block with new GFM markdown.\n\nSibling tools: `siyuan_block_insert` adds NEW blocks at a position relative to an anchor; `siyuan_block_delete` removes a block; `siyuan_attrs_set` mutates attributes (not body). siyuan_block_update is for in-place full-body overwrite. Partial edits are NOT supported — read with `siyuan_block_get` first if part of the existing content must be preserved.\n\nInputs: `id` (required) is the block id to overwrite (use `siyuan_doc_get` or `siyuan_search_text` to find it). `markdown` (required) is GFM markdown that replaces the entire block body.\n\nSiYuan indexes mutations asynchronously; SQL-based reads (siyuan_sql, siyuan_search_text, siyuan_tag_search) may show stale data for ~100-500 ms after this call. The kernel is immediately consistent — only the SQL index lags.\n\nExample:\nin:  { \"id\": \"20260501090000-blk0001\", \"markdown\": \"Updated body.\\n\" }\nout: { \"data\": { \"ok\": true }, \"_hint\": \"Mutation completed at the kernel. ...\" }";

/// Argument schema of `siyuan_block_update`.
pub const SCHEMA_BLOCK_UPDATE: &'static str = "{\"type\":\"object\",\"required\":[\"id\",\"markdown\"],\"properties\":{\"id\":{\"type\":\"string\"},\"markdown\":{\"type\":\"string\"}},\"additionalProperties\":true}";

/// Description of `siyuan_block_insert`.
pub const DESC_BLOCK_INSERT: &'static str = "Insert a new markdown block at a position relative to an anchor block.\n\nSibling tools: `siyuan_block_move` moves an EXISTING block (keeps id); `siyuan_block_update` overwrites a block in place; `siyuan_doc_create` mints a new document.\n\nInputs: `markdown` (required) is the GFM markdown body for the new block. `position` (required) is one of `after_block`, `before_block` (sibling right after / before `anchor`), `append_child`, `prepend_child` (last / first child of the container `anchor`), `append_section` (after the last block of the heading `anchor`'s section; right after the heading when the section is empty), `prepend_section` (right after the heading `anchor`), `append_doc`, `prepend_doc` (last / first block of the document `anchor`). `anchor` (required) is the block id the position refers to. The kernel returns the new block's id; the response envelope surfaces it as `data.id`.\n\nSiYuan indexes mutations asynchronously; SQL-based reads (siyuan_sql, siyuan_search_text, siyuan_tag_search) may show stale data for ~100-500 ms after this call. The kernel is immediately consistent — only the SQL index lags.\n\nExample:\nin:  { \"markdown\": \"New paragraph.\\n\", \"position\": \"after_block\", \"anchor\": \"20260501090000-blk0001\" }\nout: { \"data\": { \"id\": \"20260501090500-blk0099\" }, \"_hint\": \"Mutation completed at the kernel. ...\" }";

/// Argument schema of `siyuan_block_insert`.
pub const SCHEMA_BLOCK_INSERT: &'static str = "{\"type\":\"object\",\"required\":[\"markdown\",\"position\",\"anchor\"],\"properties\":{\"markdown\":{\"type\":\"string\"},\"position\":{\"type\":\"string\",\"enum\":[\"after_block\",\"before_block\",\"append_child\",\"prepend_child\",\"append_section\",\"prepend_section\",\"append_doc\",\"prepend_doc\"]},\"anchor\":{\"type\":\"string\"}},\"additionalProperties\":true}";

/// Description of `siyuan_block_move`.
pub const DESC_BLOCK_MOVE: &'static str = "Move an existing block to a new position within the document tree.\n\nSibling tools: `siyuan_block_insert` creates NEW blocks (different ids) and covers the positions this tool does not; `siyuan_doc_move` moves whole documents on disk (`.sy` files). siyuan_block_move keeps the block's id and all its children — only its parent and sibling order change.\n\nInputs: `id` (required) is the block id to move. `position` (required) is `after_block` (the block becomes the sibling right after `anchor`) or `append_child` (the block becomes the last child of the container `anchor`); every other position kind is rejected with `invalid_params`. `anchor` (required) is the block id the position refers to.\n\nSiYuan indexes mutations asynchronously; SQL-based reads (siyuan_sql, siyuan_search_text, siyuan_tag_search) may show stale data for ~100-500 ms after this call. The kernel is immediately consistent — only the SQL index lags.\n\nExample:\nin:  { \"id\": \"20260501090000-blk0001\", \"position\": \"append_child\", \"anchor\": \"20260501090000-doc0002\" }\nout: { \"data\": { \"ok\": true }, \"_hint\": \"Mutation completed at the kernel. ...\" }";

/// Argument schema of `siyuan_block_move`.
pub const SCHEMA_BLOCK_MOVE: &'static str = "{\"type\":\"object\",\"required\":[\"id\",\"position\",\"anchor\"],\"properties\":{\"id\":{\"type\":\"string\"},\"position\":{\"type\":\"string\",\"enum\":[\"after_block\",\"append_child\"]},\"anchor\":{\"type\":\"string\"}},\"additionalProperties\":true}";

/// Description of `siyuan_block_delete`.
pub const DESC_BLOCK_DELETE: &'static str = "Permanently delete a block and all of its children.\n\nSibling tools: `siyuan_block_update` with empty body clears a block in place but keeps it; `siyuan_doc_remove` deletes a whole document by id or hpath (and you can also delete a document by passing its root id here). siyuan_block_delete removes the block and its subtree irreversibly.\n\nInputs: `id` (required) is the block id to delete. Any block type is accepted, including a document ROOT id (deletes the whole document). The action is irreversible at the kernel level.\n\nSiYuan indexes mutations asynchronously; SQL-based reads (siyuan_sql, siyuan_search_text, siyuan_tag_search) may briefly still return the block for ~100-500 ms after this call. The kernel is immediately consistent — only the SQL index lags.\n\nExample:\nin:  { \"id\": \"20260501090000-blk0001\" }\nout: { \"data\": { \"ok\": true }, \"_hint\": \"Mutation completed at the kernel. ...\" }";

/// Argument schema of `siyuan_block_delete`.
pub const SCHEMA_BLOCK_DELETE: &'static str = "{\"type\":\"object\",\"required\":[\"id\"],\"properties\":{\"id\":{\"type\":\"string\"}},\"additionalProperties\":true}";

/// Description of `siyuan_attrs_get`.
pub const DESC_ATTRS_GET: &'static str = "Read all attributes (built-in and custom) of a block by id.\n\nSibling tools: `siyuan_attrs_set` mutates attributes (partial update); call siyuan_attrs_get first if you need to inspect existing values without overwriting them. `siyuan_block_get` returns the block's kramdown body (different concept).\n\nInputs: `id` (required) is the block id. The response is a flat key-value map: built-in keys are bare names (`id`, `type`, `title`, `icon`, `sort`, ...); custom keys carry the `custom-` prefix.\n\nExample:\nin:  { \"id\": \"20260501090000-doc0001\" }\nout: { \"id\": \"20260501090000-doc0001\", \"attrs\": { \"title\": \"Plan\", \"icon\": \":rocket:\", \"custom-priority\": \"high\" } }";

/// Argument schema of `siyuan_attrs_get`.
pub const SCHEMA_ATTRS_GET: &'static str = "{\"type\":\"object\",\"required\":[\"id\"],\"properties\":{\"id\":{\"type\":\"string\"}},\"additionalProperties\":true}";

/// Description of `siyuan_attrs_set`.
pub const DESC_ATTRS_SET: &'static str = "Set one or more attributes on a block (partial update).\n\nSibling tools: `siyuan_attrs_get` reads the current map; `siyuan_block_update` mutates the body, not attributes. There is no convenience tool for icon/sort at the MCP layer (the CLI has them) — use this with `icon` / `sort` keys directly.\n\nInputs: `id` (required) is the block id. `attrs` (required) is an object of `key: value` pairs. PARTIAL update: keys absent from `attrs` are left intact. Empty value deletes the key. Custom keys MUST start with `custom-`; attempts to set internal keys like `id` or `type` are silently ignored by the kernel.\n\nSiYuan indexes mutations asynchronously; SQL-based reads (siyuan_sql, siyuan_search_text, siyuan_tag_search) may show stale data for ~100-500 ms after this call. The kernel is immediately consistent — only the SQL index lags.\n\nExample:\nin:  { \"id\": \"20260501090000-blk0001\", \"attrs\": { \"custom-priority\": \"high\", \"custom-owner\": \"alice\" } }\nout: { \"data\": { \"ok\": true }, \"_hint\": \"Mutation completed at the kernel. ...\" }";

/// Argument schema of `siyuan_attrs_set`.
pub const SCHEMA_ATTRS_SET: &'static str = "{\"type\":\"object\",\"required\":[\"id\",\"attrs\"],\"properties\":{\"id\":{\"type\":\"string\"},\"attrs\":{\"type\":\"object\",\"additionalProperties\":{\"type\":\"string\"}}},\"additionalProperties\":true}";

/// Description of `siyuan_notebook_ls`.
pub const DESC_NOTEBOOK_LS: &'static str = "List all notebooks in the workspace, both open and closed.\n\nSibling tools: `siyuan_doc_resolve` looks up a single document by id or hpath; this tool enumerates whole notebooks. Use it to discover notebook ids before calling tools that need a `notebook` parameter (`siyuan_doc_create`, `siyuan_doc_resolve`, etc.).\n\nInputs: none required (extra properties ignored). Each notebook entry includes `id`, `name`, `icon`, `sort`, and a `closed` boolean. Notebooks closed in the SiYuan UI appear with `closed: true`; lookups inside them may return empty results or a kernel error. Re-opening is a UI-only action — this tool surface does not expose it.\n\nExample:\nin:  {}\nout: { \"notebooks\": [ { \"id\": \"20260501000000-nb00001\", \"name\": \"Inbox\", \"icon\": \"\", \"sort\": 0, \"closed\": false }, { \"id\": \"20250812000000-archived\", \"name\": \"Archive\", \"icon\": \"\", \"sort\": 1, \"closed\": true } ] }";

/// Argument schema of `siyuan_notebook_ls`.
pub const SCHEMA_NOTEBOOK_LS: &'static str = "{\"type\":\"object\",\"properties\":{},\"additionalProperties\":true}";

/// Description of `siyuan_notebook_create`.
pub const DESC_NOTEBOOK_CREATE: &'static str = "Create a new notebook with the given display name.\n\nSibling tools: `siyuan_notebook_rename` only changes the display name of an existing notebook. There is no programmatic open/close — the user opens or closes notebooks in the SiYuan UI.\n\nInputs: `name` (required) is any non-empty UTF-8 display string; duplicates are allowed (the kernel disambiguates by id). The kernel assigns a unique id automatically and surfaces it as `id` in the response (also under `data.id`).\n\nThe new notebook is reachable for subsequent calls (`siyuan_doc_resolve`, `siyuan_doc_create`, etc.). NOTE: some kernel versions create the notebook in a CLOSED state — the harness still resolves it through `siyuan_doc_resolve` and similar kernel-direct tools, but reads via `siyuan_sql` / `siyuan_search_text` may return empty until the user opens it in the SiYuan UI.\n\nSiYuan indexes mutations asynchronously; SQL-based reads (siyuan_sql, siyuan_search_text, siyuan_tag_search) may show stale data for ~100-500 ms after this call. The kernel is immediately consistent — only the SQL index lags.\n\nExample:\nin:  { \"name\": \"Inbox\" }\nout: { \"id\": \"20260501000000-nb00001\", \"data\": { \"id\": \"20260501000000-nb00001\", \"name\": \"Inbox\", \"icon\": \"\", \"sort\": 0, \"closed\": false } }";

/// Argument schema of `siyuan_notebook_create`.
pub const SCHEMA_NOTEBOOK_CREATE: &'static str = "{\"type\":\"object\",\"required\":[\"name\"],\"properties\":{\"name\":{\"type\":\"string\"}},\"additionalProperties\":true}";

/// Description of `siyuan_notebook_rename`.
pub const DESC_NOTEBOOK_RENAME: &'static str = "Rename an existing notebook (display name only).\n\nSibling tools: `siyuan_notebook_create` mints a new notebook; `siyuan_notebook_remove` destroys one and all its documents. siyuan_notebook_rename changes the display name only — the on-disk folder and the notebook id remain stable, so storage paths inside it are unaffected.\n\nInputs: `id` (required) is the notebook id (from `siyuan_notebook_ls`); `name` (required) is the new display name.\n\nSiYuan indexes mutations asynchronously; SQL-based reads (siyuan_sql, siyuan_search_text, siyuan_tag_search) may show stale data for ~100-500 ms after this call. The kernel is immediately consistent — only the SQL index lags. `siyuan_notebook_ls` itself reflects the new name immediately.\n\nExample:\nin:  { \"id\": \"20260501000000-nb00001\", \"name\": \"Triage\" }\nout: { \"data\": { \"ok\": true }, \"_hint\": \"Mutation completed at the kernel. ...\" }";

/// Argument schema of `siyuan_notebook_rename`.
pub const SCHEMA_NOTEBOOK_RENAME: &'static str = "{\"type\":\"object\",\"required\":[\"id\",\"name\"],\"properties\":{\"id\":{\"type\":\"string\"},\"name\":{\"type\":\"string\"}},\"additionalProperties\":true}";

/// Description of `siyuan_notebook_remove`.
pub const DESC_NOTEBOOK_REMOVE: &'static str = "Permanently remove a notebook AND every document it contains.\n\nSibling tools: `siyuan_doc_remove` removes a single document; this tool destroys the whole notebook and is irreversible. Verify the notebook id from `siyuan_notebook_ls` before calling.\n\nInputs: `id` (required) is the notebook id.\n\nSiYuan indexes mutations asynchronously; SQL-based reads (siyuan_sql, siyuan_search_text, siyuan_tag_search) may show stale data for ~100-500 ms after this call. The kernel is immediately consistent — only the SQL index lags.\n\nExample:\nin:  { \"id\": \"20260501000000-nb00001\" }\nout: { \"data\": { \"ok\": true }, \"_hint\": \"Mutation completed at the kernel. ...\" }";

/// Argument schema of `siyuan_notebook_remove`.
pub const SCHEMA_NOTEBOOK_REMOVE: &'static str = "{\"type\":\"object\",\"required\":[\"id\"],\"properties\":{\"id\":{\"type\":\"string\"}},\"additionalProperties\":true}";

/// Description of `siyuan_doc_resolve`.
pub const DESC_DOC_RESOLVE: &'static str = "Look up documents by id or by human path and return their metadata, including the storage path.\n\nSibling tools: `siyuan_doc_tree` lists a whole subtree; `siyuan_doc_get` reads a document's content; `siyuan_doc_rename`, `siyuan_doc_move` and `siyuan_doc_remove` accept the same `id` or `notebook` + `hpath` lookup, or the `storage_path` this tool returns.\n\nInputs: provide EXACTLY ONE input mode — either `id` (a document block id), or `notebook` PLUS `hpath` (a human path starting with `/`). Supplying both modes, or neither, is an error; a blank `hpath` is an error.\n\nOutput is an array of matches under `docs`; an empty array means no such document — this is NOT an error. Each entry has `id`, `hpath`, `notebook_id`, `notebook_name`, `title` and `storage_path`.\n\nExample:\nin:  { \"notebook\": \"20260501000000-nb00001\", \"hpath\": \"/Plan\" }\nout: { \"docs\": [ { \"id\": \"20260501090000-doc0001\", \"hpath\": \"/Plan\", \"notebook_id\": \"20260501000000-nb00001\", \"notebook_name\": \"Inbox\", \"title\": \"Plan\", \"storage_path\": \"/20260501090000-doc0001.sy\" } ] }";

/// Argument schema of `siyuan_doc_resolve`.
pub const SCHEMA_DOC_RESOLVE: &'static str = "{\"type\":\"object\",\"properties\":{\"id\":{\"type\":\"string\",\"description\":\"Document block id (use this OR notebook+hpath)\"},\"notebook\":{\"type\":\"string\",\"description\":\"Notebook id (use with hpath)\"},\"hpath\":{\"type\":\"string\",\"description\":\"Human path (use with notebook)\"}},\"additionalProperties\":true}";

/// Description of `siyuan_doc_tree`.
pub const DESC_DOC_TREE: &'static str = "List a notebook or folder subtree as a tree of documents.\n\nSibling tools: `siyuan_doc_resolve` looks up single documents; `siyuan_doc_get` reads one document's blocks.\n\nInputs: provide EXACTLY ONE input mode — either `id` (the document at the root of the subtree), or `notebook` with an optional `hpath` (absent or `/`: the whole notebook). `depth` (optional, default 1) is a positive integer or `all`; documents deeper than `depth` levels below the root are not loaded, but every node still reports `has_children` and `doc_count_recursive` from the full subtree. `format` (optional, default `agent-md`) is one of `agent-md` (one `<!-- sy:doc ... -->` marker and one summary line per document, closed by a `<!-- sy:tree ... -->` line with the loaded count and whether the tree was cut), `json` or `json-pretty`.\n\nExample:\nin:  { \"notebook\": \"20260501000000-nb00001\", \"depth\": 2 }\nout: { \"format\": \"agent-md\", \"content\": \"<!-- sy:doc id=... -->\\n- /Plan (0 subdocs)\\n<!-- sy:tree depth=2 total_loaded=1 truncated=false -->\\n\" }";

/// Argument schema of `siyuan_doc_tree`.
pub const SCHEMA_DOC_TREE: &'static str = "{\"type\":\"object\",\"properties\":{\"id\":{\"type\":\"string\",\"description\":\"Document block id (use this OR notebook[+hpath])\"},\"notebook\":{\"type\":\"string\",\"description\":\"Notebook id\"},\"hpath\":{\"type\":\"string\",\"description\":\"Human path of the subtree root (default: the whole notebook)\"},\"depth\":{\"oneOf\":[{\"type\":\"integer\",\"minimum\":1},{\"type\":\"string\",\"enum\":[\"all\"]}],\"default\":1},\"format\":{\"type\":\"string\",\"enum\":[\"agent-md\",\"json\",\"json-pretty\"],\"default\":\"agent-md\"}},\"additionalProperties\":true}";

/// Description of `siyuan_doc_rename`.
pub const DESC_DOC_RENAME: &'static str = "Rename a document by changing its display title.\n\nSibling tools: `siyuan_doc_move` changes the parent folder of a document; this tool changes only its title (the last hpath segment). `siyuan_attrs_set` with key `icon` is the analogous icon mutator.\n\nInputs: name the document EXACTLY ONE way — `id` (the document block id), or `notebook` PLUS `hpath` (its human path); the server resolves the on-disk storage path itself, and a lookup matching no document or several is an error. Alternatively pass `notebook` with `path`, the STORAGE path with `.sy` suffix (e.g. `/20230101120000-abcdefg.sy`) as `siyuan_doc_resolve` reports it. `title` (required) is the new human-readable display name; a subsequent `siyuan_doc_resolve` reflects the new title immediately.\n\nSiYuan indexes mutations asynchronously; SQL-based reads (siyuan_sql, siyuan_search_text, siyuan_tag_search) may show stale data for ~100-500 ms after this call. The kernel is immediately consistent — only the SQL index lags.\n\nExample:\nin:  { \"id\": \"20260501090000-doc0001\", \"title\": \"Q3 Plan\" }\nout: { \"data\": { \"ok\": true }, \"_hint\": \"Mutation completed at the kernel. ...\" }";

/// Argument schema of `siyuan_doc_rename`.
pub const SCHEMA_DOC_RENAME: &'static str = "{\"type\":\"object\",\"required\":[\"title\"],\"properties\":{\"id\":{\"type\":\"string\",\"description\":\"Document block id (use this OR notebook+hpath)\"},\"notebook\":{\"type\":\"string\",\"description\":\"Notebook id (use with hpath, or with path)\"},\"hpath\":{\"type\":\"string\",\"description\":\"Human path (use with notebook)\"},\"path\":{\"type\":\"string\",\"description\":\"Storage .sy path (use with notebook)\"},\"title\":{\"type\":\"string\"}},\"additionalProperties\":true}";

/// Description of `siyuan_doc_move`.
pub const DESC_DOC_MOVE: &'static str = "Move one or more documents to a different notebook/folder.\n\nSibling tools: `siyuan_block_move` moves a block within a document tree (block-level); `siyuan_doc_rename` only retitles. siyuan_doc_move relocates whole `.sy` files in the file tree.\n\nInputs: name ONE source document by `id`, or by `notebook` PLUS `hpath`, and the server resolves its storage path (a lookup matching no document or several is an error); or pass `from_paths`, a non-empty array of STORAGE `.sy` paths (NOT hpaths), to move several at once. `to_notebook` (required) is the destination notebook id. `to_path` (required) is the destination FOLDER as a storage path (e.g. `/Projects` or `/`); not an hpath, although for folders the two often coincide because folders carry no `.sy` suffix. Each source's own `.sy` filename is preserved at the target.\n\nAfter the move, `siyuan_doc_resolve` reflects the new location immediately. SiYuan indexes mutations asynchronously; SQL-based reads (siyuan_sql, siyuan_search_text, siyuan_tag_search) may show stale data for ~100-500 ms after this call. The kernel is immediately consistent — only the SQL index lags.\n\nExample:\nin:  { \"id\": \"20260501090000-doc0001\", \"to_notebook\": \"20260501000000-nb00002\", \"to_path\": \"/\" }\nout: { \"data\": { \"ok\": true }, \"_hint\": \"Mutation completed at the kernel. ...\" }";

/// Argument schema of `siyuan_doc_move`.
pub const SCHEMA_DOC_MOVE: &'static str = "{\"type\":\"object\",\"required\":[\"to_notebook\",\"to_path\"],\"properties\":{\"id\":{\"type\":\"string\",\"description\":\"Source document block id (use this OR notebook+hpath OR from_paths)\"},\"notebook\":{\"type\":\"string\",\"description\":\"Source notebook id (use with hpath)\"},\"hpath\":{\"type\":\"string\",\"description\":\"Source human path (use with notebook)\"},\"from_paths\":{\"type\":\"array\",\"items\":{\"type\":\"string\"},\"description\":\"Source storage .sy paths\"},\"to_notebook\":{\"type\":\"string\"},\"to_path\":{\"type\":\"string\"}},\"additionalProperties\":true}";

/// Description of `siyuan_doc_remove`.
pub const DESC_DOC_REMOVE: &'static str = "Permanently remove a document and all its child blocks.\n\nSibling tools: `siyuan_block_delete` with the document root id deletes the same content via the block API; `siyuan_doc_move` relocates instead of deleting; `siyuan_notebook_remove` destroys an entire notebook. siyuan_doc_remove is the per-document destroyer.\n\nInputs: name the document EXACTLY ONE way — `id` (the document block id), or `notebook` PLUS `hpath` (its human path); the server resolves the on-disk storage path itself, and a lookup matching no document or several is an error. Alternatively pass `notebook` with `path`, the STORAGE path with `.sy` suffix as `siyuan_doc_resolve` reports it.\n\nAfter removal, `siyuan_doc_resolve` no longer finds this document. SiYuan indexes mutations asynchronously; SQL-based reads (siyuan_sql, siyuan_search_text, siyuan_tag_search) may show stale data for ~100-500 ms after this call. The kernel is immediately consistent — only the SQL index lags.\n\nExample:\nin:  { \"notebook\": \"20260501000000-nb00001\", \"hpath\": \"/Plan\" }\nout: { \"data\": { \"ok\": true }, \"_hint\": \"Mutation completed at the kernel. ...\" }";

/// Argument schema of `siyuan_doc_remove`.
pub const SCHEMA_DOC_REMOVE: &'static str = "{\"type\":\"object\",\"properties\":{\"id\":{\"type\":\"string\",\"description\":\"Document block id (use this OR notebook+hpath)\"},\"notebook\":{\"type\":\"string\",\"description\":\"Notebook id (use with hpath, or with path)\"},\"hpath\":{\"type\":\"string\",\"description\":\"Human path (use with notebook)\"},\"path\":{\"type\":\"string\",\"description\":\"Storage .sy path (use with notebook)\"}},\"additionalProperties\":true}";

/// Description of `siyuan_tag_ls`.
pub const DESC_TAG_LS: &'static str = "List all distinct tags used anywhere in the workspace.\n\nSibling tools: `siyuan_tag_search` finds blocks tagged with one specific tag; this tool enumerates the available tags. `siyuan_search_text` is for free-text content search, not tags.\n\nInputs: none required. The output is a flat array of tag strings WITHOUT the surrounding `#` characters — pass each value directly as the `tag` argument to `siyuan_tag_search`. The list is derived from the SQL index and is eventually consistent: freshly-created tags may take ~100-500 ms to appear (the kernel itself is consistent immediately).\n\nExample:\nin:  {}\nout: { \"data\": { \"tags\": [\"project\", \"urgent\", \"idea\"] } }";

/// Argument schema of `siyuan_tag_ls`.
pub const SCHEMA_TAG_LS: &'static str = "{\"type\":\"object\",\"properties\":{},\"additionalProperties\":true}";

/// Description of `siyuan_tag_search`.
pub const DESC_TAG_SEARCH: &'static str = "Find all blocks that carry a specific tag.\n\nSibling tools: `siyuan_tag_ls` enumerates available tags; `siyuan_search_text` does free-text matching instead of tag-exact match.\n\nInputs: `tag` (required) is the tag content WITHOUT the surrounding `#` characters — pass `project` to find blocks tagged `#project`. Match is exact on the tag value. `limit` (optional, default 50) caps the result count and is capped server-side at 1000.\n\nResults are eventually consistent with the SQL index — freshly-tagged blocks may take ~100-500 ms to appear (the kernel is immediately consistent; only the SQL index lags). The response envelope includes `data.hits` as an array of block records.\n\nExample:\nin:  { \"tag\": \"project\", \"limit\": 10 }\nout: { \"data\": { \"hits\": [ { \"id\": \"20260501090000-blk0001\", \"root_id\": \"20260501090000-doc0001\", \"markdown\": \"Plan kickoff #project\" } ] } }";

/// Argument schema of `siyuan_tag_search`.
pub const SCHEMA_TAG_SEARCH: &'static str = "{\"type\":\"object\",\"required\":[\"tag\"],\"properties\":{\"tag\":{\"type\":\"string\"},\"limit\":{\"type\":\"integer\",\"default\":50}},\"additionalProperties\":true}";

/// Description of `siyuan_search_text`.
pub const DESC_SEARCH_TEXT: &'static str = "Full-text search across all blocks using a SQL LIKE substring match.\n\nSibling tools: `siyuan_tag_search` is exact tag match; `siyuan_sql` is the raw escape hatch for arbitrary queries (joins, aggregates). siyuan_search_text matches against the `markdown` column (includes inline syntax markers) — for a `content` (visible-text) match, build the LIKE manually via `siyuan_sql`.\n\nInputs: `query` (required, non-empty) is the substring. Single quotes are escaped internally; LIKE meta-chars (`%`, `_`, `\\`) are NOT escaped — they behave as wildcards. Matching is case-insensitive on most SQLite builds. `limit` (optional, default 50) caps the result count.\n\nResults may lag recent mutations by ~100-500 ms (the kernel is immediately consistent; only the SQL index lags). The response envelope includes `data.hits` as an array of block records with `id`, `root_id`, `markdown`.\n\nExample:\nin:  { \"query\": \"kickoff\", \"limit\": 10 }\nout: { \"data\": { \"hits\": [ { \"id\": \"20260501090000-blk0001\", \"root_id\": \"20260501090000-doc0001\", \"markdown\": \"Plan kickoff for Q3\" } ] } }";

/// Argument schema of `siyuan_search_text`.
pub const SCHEMA_SEARCH_TEXT: &'static str = "{\"type\":\"object\",\"required\":[\"query\"],\"properties\":{\"query\":{\"type\":\"string\"},\"limit\":{\"type\":\"integer\",\"default\":50}},\"additionalProperties\":true}";

/// Description of `siyuan_sql`.
pub const DESC_SQL: &'static str = "Execute a raw read-only SQL SELECT statement against the SiYuan SQLite database.\n\nSibling tools: prefer `siyuan_search_text`, `siyuan_tag_search`, or `siyuan_graph_neighborhood` when they cover the use case. Reach for siyuan_sql ONLY for queries those do not (joins, aggregations, or access to internal tables like `refs`, `attributes`, `spans`). The CLI exposes the same operation as `siyuan sql --stmt ...`.\n\nInputs: `stmt` (required) is a single SQL SELECT statement. A client-side keyword check rejects non-SELECT/WITH statements before any kernel round trip (whitespace and case are normalised; `WITH` is allowed for CTEs). The kernel also rejects INSERT/UPDATE/DELETE/DDL on its own and will return an error if anything slips past; in read-only / publish mode the endpoint itself is disabled and returns `SqlUnavailable`.\n\nCritical caveat: the kernel does NOT parameterise the query — there is no auto-escaping. Single quotes inside string literals must be doubled (`'O''Brien'`); LIKE meta-chars (`%`, `_`, `\\`) must be escaped by the caller and paired with an `ESCAPE '\\\\'` clause. Treat the value as literal SQL text. `LIMIT` belongs inside the statement.\n\nResults are returned as an array of JSON objects where each key is a column name. Some columns may be unstable internal fields. The SQL index lags writes by ~100-500 ms — rows just inserted may not show up immediately even though the kernel has them.\n\nExample:\nin:  { \"stmt\": \"SELECT id, hpath FROM blocks WHERE box = '20260501000000-nb00001' AND type = 'd' LIMIT 5\" }\nout: { \"data\": { \"rows\": [ { \"id\": \"20260501090000-doc0001\", \"hpath\": \"/Plan\" } ] }, \"_hint\": \"Power tool: results are raw rows ...\" }";

/// Argument schema of `siyuan_sql`.
pub const SCHEMA_SQL: &'static str = "{\"type\":\"object\",\"required\":[\"stmt\"],\"properties\":{\"stmt\":{\"type\":\"string\"}},\"additionalProperties\":true}";

/// Description of `siyuan_asset_upload`.
pub const DESC_ASSET_UPLOAD: &'static str = "Upload a local file as a SiYuan asset.\n\nSibling tools: there is no separate `reference` tool at the MCP layer (the CLI has `siyuan asset reference` which is a pure formatter). Use the returned asset path inside markdown that you pass to `siyuan_block_insert`, `siyuan_block_update`, or `siyuan_doc_create`.\n\nInputs: `file_path` (required) is an ABSOLUTE path on the machine running the MCP server (NOT on the SiYuan kernel host if they differ). The process must have read access. The kernel copies the bytes into its `assets/` directory and assigns a stable name; the response surfaces the kernel-relative asset path under `data.asset_path`. To embed, include `![alt](assets/<name>.<ext>)` in markdown.\n\nExample:\nin:  { \"file_path\": \"/home/user/diagram.png\" }\nout: { \"data\": { \"asset_path\": \"assets/diagram-20260501090000-abc.png\" }, \"_hint\": \"Asset stored at the returned path. ...\" }";

/// Argument schema of `siyuan_asset_upload`.
pub const SCHEMA_ASSET_UPLOAD: &'static str = "{\"type\":\"object\",\"required\":[\"file_path\"],\"properties\":{\"file_path\":{\"type\":\"string\"}},\"additionalProperties\":true}";

/// Description of `siyuan_graph_neighborhood`.
pub const DESC_GRAPH_NEIGHBORHOOD: &'static str = "Compute the link-graph neighborhood around a center block up to a given depth.\n\nSibling tools: `siyuan_sql` against the `refs` table gives unbounded results when this tool's caps are insufficient. There are no separate backlinks / outgoing tools at the MCP layer — set `direction` to `incoming` or `outgoing` here to get those. The CLI exposes `siyuan graph backlinks` / `outgoing` as depth-1 single-direction shortcuts.\n\nInputs: `center` (required) is the center block id. `depth` (optional, default 1) is the hop count, CAPPED at 8 by the model layer. `direction` (optional, default `both`) is one of `outgoing` (follow refs FROM the center to blocks it references), `incoming` (follow refs TO the center), or `both`.\n\nTraversal stops at 500 nodes or 1000 edges per call. When either cap is hit, `data.truncated` is `true` and the result is partial — narrow the query (reduce depth, switch to a single direction, choose a more specific center) or fall back to `siyuan_sql`. The response envelope contains `data.nodes`, `data.edges`, and `data.truncated`.\n\nExample:\nin:  { \"center\": \"20260501090000-blk0001\", \"depth\": 2, \"direction\": \"both\" }\nout: { \"data\": { \"nodes\": [...], \"edges\": [...], \"truncated\": false } }";

/// Argument schema of `siyuan_graph_neighborhood`.
pub const SCHEMA_GRAPH_NEIGHBORHOOD: &'static str = "{\"type\":\"object\",\"required\":[\"center\"],\"properties\":{\"center\":{\"type\":\"string\"},\"depth\":{\"type\":\"integer\",\"default\":1},\"direction\":{\"type\":\"string\",\"enum\":[\"outgoing\",\"incoming\",\"both\"],\"default\":\"both\"}},\"additionalProperties\":true}";

/// The tool at listing position `i`.
pub open spec fn tool_kind_at(i: int) -> ToolKind {
    if i == 0 { ToolKind::Status }
    else if i == 1 { ToolKind::DocGet }
    else if i == 2 { ToolKind::BlockGet }
    else if i == 3 { ToolKind::DocCreate }
    else if i == 4 { ToolKind::BlockUpdate }
    else if i == 5 { ToolKind::BlockInsert }
    else if i == 6 { ToolKind::BlockMove }
    else if i == 7 { ToolKind::BlockDelete }
    else if i == 8 { ToolKind::AttrsGet }
    else if i == 9 { ToolKind::AttrsSet }
    else if i == 10 { ToolKind::NotebookLs }
    else if i == 11 { ToolKind::NotebookCreate }
    else if i == 12 { ToolKind::NotebookRename }
    else if i == 13 { ToolKind::NotebookRemove }
    else if i == 14 { ToolKind::DocResolve }
    else if i == 15 { ToolKind::DocTree }
    else if i == 16 { ToolKind::DocRename }
    else if i == 17 { ToolKind::DocMove }
    else if i == 18 { ToolKind::DocRemove }
    else if i == 19 { ToolKind::TagLs }
    else if i == 20 { ToolKind::TagSearch }
    else if i == 21 { ToolKind::SearchText }
    else if i == 22 { ToolKind::Sql }
    else if i == 23 { ToolKind::AssetUpload }
    else { ToolKind::GraphNeighborhood }
}

/// The name a tool is called by.
pub open spec fn tool_name(k: ToolKind) -> Seq<char> {
    match k {
        ToolKind::Status => "siyuan_status"@,
        ToolKind::DocGet => "siyuan_doc_get"@,
        ToolKind::BlockGet => "siyuan_block_get"@,
        ToolKind::DocCreate => "siyuan_doc_create"@,
        ToolKind::BlockUpdate => "siyuan_block_update"@,
        ToolKind::BlockInsert => "siyuan_block_insert"@,
        ToolKind::BlockMove => "siyuan_block_move"@,
        ToolKind::BlockDelete => "siyuan_block_delete"@,
        ToolKind::AttrsGet => "siyuan_attrs_get"@,
        ToolKind::AttrsSet => "siyuan_attrs_set"@,
        ToolKind::NotebookLs => "siyuan_notebook_ls"@,
        ToolKind::NotebookCreate => "siyuan_notebook_create"@,
        ToolKind::NotebookRename => "siyuan_notebook_rename"@,
        ToolKind::NotebookRemove => "siyuan_notebook_remove"@,
        ToolKind::DocResolve => "siyuan_doc_resolve"@,
        ToolKind::DocTree => "siyuan_doc_tree"@,
        ToolKind::DocRename => "siyuan_doc_rename"@,
        ToolKind::DocMove => "siyuan_doc_move"@,
        ToolKind::DocRemove => "siyuan_doc_remove"@,
        ToolKind::TagLs => "siyuan_tag_ls"@,
        ToolKind::TagSearch => "siyuan_tag_search"@,
        ToolKind::SearchText => "siyuan_search_text"@,
        ToolKind::Sql => "siyuan_sql"@,
        ToolKind::AssetUpload => "siyuan_asset_upload"@,
        ToolKind::GraphNeighborhood => "siyuan_graph_neighborhood"@,
    }
}

/// The description of a tool.
pub open spec fn tool_description(k: ToolKind) -> Seq<char> {
    match k {
        ToolKind::Status => DESC_STATUS@,
        ToolKind::DocGet => DESC_DOC_GET@,
        ToolKind::BlockGet => DESC_BLOCK_GET@,
        ToolKind::DocCreate => DESC_DOC_CREATE@,
        ToolKind::BlockUpdate => DESC_BLOCK_UPDATE@,
        ToolKind::BlockInsert => DESC_BLOCK_INSERT@,
        ToolKind::BlockMove => DESC_BLOCK_MOVE@,
        ToolKind::BlockDelete => DESC_BLOCK_DELETE@,
        ToolKind::AttrsGet => DESC_ATTRS_GET@,
        ToolKind::AttrsSet => DESC_ATTRS_SET@,
        ToolKind::NotebookLs => DESC_NOTEBOOK_LS@,
        ToolKind::NotebookCreate => DESC_NOTEBOOK_CREATE@,
        ToolKind::NotebookRename => DESC_NOTEBOOK_RENAME@,
        ToolKind::NotebookRemove => DESC_NOTEBOOK_REMOVE@,
        ToolKind::DocResolve => DESC_DOC_RESOLVE@,
        ToolKind::DocTree => DESC_DOC_TREE@,
        ToolKind::DocRename => DESC_DOC_RENAME@,
        ToolKind::DocMove => DESC_DOC_MOVE@,
        ToolKind::DocRemove => DESC_DOC_REMOVE@,
        ToolKind::TagLs => DESC_TAG_LS@,
        ToolKind::TagSearch => DESC_TAG_SEARCH@,
        ToolKind::SearchText => DESC_SEARCH_TEXT@,
        ToolKind::Sql => DESC_SQL@,
        ToolKind::AssetUpload => DESC_ASSET_UPLOAD@,
        ToolKind::GraphNeighborhood => DESC_GRAPH_NEIGHBORHOOD@,
    }
}

/// The argument schema of a tool, as JSON text.
pub open spec fn tool_schema(k: ToolKind) -> Seq<char> {
    match k {
        ToolKind::Status => SCHEMA_STATUS@,
        ToolKind::DocGet => SCHEMA_DOC_GET@,
        ToolKind::BlockGet => SCHEMA_BLOCK_GET@,
        ToolKind::DocCreate => SCHEMA_DOC_CREATE@,
        ToolKind::BlockUpdate => SCHEMA_BLOCK_UPDATE@,
        ToolKind::BlockInsert => SCHEMA_BLOCK_INSERT@,
        ToolKind::BlockMove => SCHEMA_BLOCK_MOVE@,
        ToolKind::BlockDelete => SCHEMA_BLOCK_DELETE@,
        ToolKind::AttrsGet => SCHEMA_ATTRS_GET@,
        ToolKind::AttrsSet => SCHEMA_ATTRS_SET@,
        ToolKind::NotebookLs => SCHEMA_NOTEBOOK_LS@,
        ToolKind::NotebookCreate => SCHEMA_NOTEBOOK_CREATE@,
        ToolKind::NotebookRename => SCHEMA_NOTEBOOK_RENAME@,
        ToolKind::NotebookRemove => SCHEMA_NOTEBOOK_REMOVE@,
        ToolKind::DocResolve => SCHEMA_DOC_RESOLVE@,
        ToolKind::DocTree => SCHEMA_DOC_TREE@,
        ToolKind::DocRename => SCHEMA_DOC_RENAME@,
        ToolKind::DocMove => SCHEMA_DOC_MOVE@,
        ToolKind::DocRemove => SCHEMA_DOC_REMOVE@,
        ToolKind::TagLs => SCHEMA_TAG_LS@,
        ToolKind::TagSearch => SCHEMA_TAG_SEARCH@,
        ToolKind::SearchText => SCHEMA_SEARCH_TEXT@,
        ToolKind::Sql => SCHEMA_SQL@,
        ToolKind::AssetUpload => SCHEMA_ASSET_UPLOAD@,
        ToolKind::GraphNeighborhood => SCHEMA_GRAPH_NEIGHBORHOOD@,
    }
}

fn name_str(k: ToolKind) -> (r: &'static str)
    ensures
        r@ == tool_name(k),
{
    match k {
        ToolKind::Status => "siyuan_status",
        ToolKind::DocGet => "siyuan_doc_get",
        ToolKind::BlockGet => "siyuan_block_get",
        ToolKind::DocCreate => "siyuan_doc_create",
        ToolKind::BlockUpdate => "siyuan_block_update",
        ToolKind::BlockInsert => "siyuan_block_insert",
        ToolKind::BlockMove => "siyuan_block_move",
        ToolKind::BlockDelete => "siyuan_block_delete",
        ToolKind::AttrsGet => "siyuan_attrs_get",
        ToolKind::AttrsSet => "siyuan_attrs_set",
        ToolKind::NotebookLs => "siyuan_notebook_ls",
        ToolKind::NotebookCreate => "siyuan_notebook_create",
        ToolKind::NotebookRename => "siyuan_notebook_rename",
        ToolKind::NotebookRemove => "siyuan_notebook_remove",
        ToolKind::DocResolve => "siyuan_doc_resolve",
        ToolKind::DocTree => "siyuan_doc_tree",
        ToolKind::DocRename => "siyuan_doc_rename",
        ToolKind::DocMove => "siyuan_doc_move",
        ToolKind::DocRemove => "siyuan_doc_remove",
        ToolKind::TagLs => "siyuan_tag_ls",
        ToolKind::TagSearch => "siyuan_tag_search",
        ToolKind::SearchText => "siyuan_search_text",
        ToolKind::Sql => "siyuan_sql",
        ToolKind::AssetUpload => "siyuan_asset_upload",
        ToolKind::GraphNeighborhood => "siyuan_graph_neighborhood",
    }
}

fn description_str(k: ToolKind) -> (r: &'static str)
    ensures
        r@ == tool_description(k),
{
    match k {
        ToolKind::Status => DESC_STATUS,
        ToolKind::DocGet => DESC_DOC_GET,
        ToolKind::BlockGet => DESC_BLOCK_GET,
        ToolKind::DocCreate => DESC_DOC_CREATE,
        ToolKind::BlockUpdate => DESC_BLOCK_UPDATE,
        ToolKind::BlockInsert => DESC_BLOCK_INSERT,
        ToolKind::BlockMove => DESC_BLOCK_MOVE,
        ToolKind::BlockDelete => DESC_BLOCK_DELETE,
        ToolKind::AttrsGet => DESC_ATTRS_GET,
        ToolKind::AttrsSet => DESC_ATTRS_SET,
        ToolKind::NotebookLs => DESC_NOTEBOOK_LS,
        ToolKind::NotebookCreate => DESC_NOTEBOOK_CREATE,
        ToolKind::NotebookRename => DESC_NOTEBOOK_RENAME,
        ToolKind::NotebookRemove => DESC_NOTEBOOK_REMOVE,
        ToolKind::DocResolve => DESC_DOC_RESOLVE,
        ToolKind::DocTree => DESC_DOC_TREE,
        ToolKind::DocRename => DESC_DOC_RENAME,
        ToolKind::DocMove => DESC_DOC_MOVE,
        ToolKind::DocRemove => DESC_DOC_REMOVE,
        ToolKind::TagLs => DESC_TAG_LS,
        ToolKind::TagSearch => DESC_TAG_SEARCH,
        ToolKind::SearchText => DESC_SEARCH_TEXT,
        ToolKind::Sql => DESC_SQL,
        ToolKind::AssetUpload => DESC_ASSET_UPLOAD,
        ToolKind::GraphNeighborhood => DESC_GRAPH_NEIGHBORHOOD,
    }
}

fn schema_str(k: ToolKind) -> (r: &'static str)
    ensures
        r@ == tool_schema(k),
{
    match k {
        ToolKind::Status => SCHEMA_STATUS,
        ToolKind::DocGet => SCHEMA_DOC_GET,
        ToolKind::BlockGet => SCHEMA_BLOCK_GET,
        ToolKind::DocCreate => SCHEMA_DOC_CREATE,
        ToolKind::BlockUpdate => SCHEMA_BLOCK_UPDATE,
        ToolKind::BlockInsert => SCHEMA_BLOCK_INSERT,
        ToolKind::BlockMove => SCHEMA_BLOCK_MOVE,
        ToolKind::BlockDelete => SCHEMA_BLOCK_DELETE,
        ToolKind::AttrsGet => SCHEMA_ATTRS_GET,
        ToolKind::AttrsSet => SCHEMA_ATTRS_SET,
        ToolKind::NotebookLs => SCHEMA_NOTEBOOK_LS,
        ToolKind::NotebookCreate => SCHEMA_NOTEBOOK_CREATE,
        ToolKind::NotebookRename => SCHEMA_NOTEBOOK_RENAME,
        ToolKind::NotebookRemove => SCHEMA_NOTEBOOK_REMOVE,
        ToolKind::DocResolve => SCHEMA_DOC_RESOLVE,
        ToolKind::DocTree => SCHEMA_DOC_TREE,
        ToolKind::DocRename => SCHEMA_DOC_RENAME,
        ToolKind::DocMove => SCHEMA_DOC_MOVE,
        ToolKind::DocRemove => SCHEMA_DOC_REMOVE,
        ToolKind::TagLs => SCHEMA_TAG_LS,
        ToolKind::TagSearch => SCHEMA_TAG_SEARCH,
        ToolKind::SearchText => SCHEMA_SEARCH_TEXT,
        ToolKind::Sql => SCHEMA_SQL,
        ToolKind::AssetUpload => SCHEMA_ASSET_UPLOAD,
        ToolKind::GraphNeighborhood => SCHEMA_GRAPH_NEIGHBORHOOD,
    }
}

fn kind_at(i: usize) -> (r: ToolKind)
    requires
        i < TOOL_COUNT,
    ensures
        r == tool_kind_at(i as int),
{
    if i == 0 { ToolKind::Status }
    else if i == 1 { ToolKind::DocGet }
    else if i == 2 { ToolKind::BlockGet }
    else if i == 3 { ToolKind::DocCreate }
    else if i == 4 { ToolKind::BlockUpdate }
    else if i == 5 { ToolKind::BlockInsert }
    else if i == 6 { ToolKind::BlockMove }
    else if i == 7 { ToolKind::BlockDelete }
    else if i == 8 { ToolKind::AttrsGet }
    else if i == 9 { ToolKind::AttrsSet }
    else if i == 10 { ToolKind::NotebookLs }
    else if i == 11 { ToolKind::NotebookCreate }
    else if i == 12 { ToolKind::NotebookRename }
    else if i == 13 { ToolKind::NotebookRemove }
    else if i == 14 { ToolKind::DocResolve }
    else if i == 15 { ToolKind::DocTree }
    else if i == 16 { ToolKind::DocRename }
    else if i == 17 { ToolKind::DocMove }
    else if i == 18 { ToolKind::DocRemove }
    else if i == 19 { ToolKind::TagLs }
    else if i == 20 { ToolKind::TagSearch }
    else if i == 21 { ToolKind::SearchText }
    else if i == 22 { ToolKind::Sql }
    else if i == 23 { ToolKind::AssetUpload }
    else { ToolKind::GraphNeighborhood }
}

/// The listing entry at position `i`: name, description and schema.
pub open spec fn tool_spec_of(i: int) -> (Seq<char>, Seq<char>, Seq<char>) {
    let k = tool_kind_at(i);
    (tool_name(k), tool_description(k), tool_schema(k))
}

/// The listing entry of one tool.
pub fn tool_spec(k: ToolKind) -> (r: ToolSpec)
    ensures
        r@ == (tool_name(k), tool_description(k), tool_schema(k)),
{
    ToolSpec { name: owned(name_str(k)), description: owned(description_str(k)), input_schema: owned(schema_str(k)) }
}

/// The tool a name calls, if any.
pub open spec fn tool_kind_of(s: Seq<char>) -> Option<ToolKind> {
    if s == tool_name(ToolKind::Status) { Some(ToolKind::Status) }
    else if s == tool_name(ToolKind::DocGet) { Some(ToolKind::DocGet) }
    else if s == tool_name(ToolKind::BlockGet) { Some(ToolKind::BlockGet) }
    else if s == tool_name(ToolKind::DocCreate) { Some(ToolKind::DocCreate) }
    else if s == tool_name(ToolKind::BlockUpdate) { Some(ToolKind::BlockUpdate) }
    else if s == tool_name(ToolKind::BlockInsert) { Some(ToolKind::BlockInsert) }
    else if s == tool_name(ToolKind::BlockMove) { Some(ToolKind::BlockMove) }
    else if s == tool_name(ToolKind::BlockDelete) { Some(ToolKind::BlockDelete) }
    else if s == tool_name(ToolKind::AttrsGet) { Some(ToolKind::AttrsGet) }
    else if s == tool_name(ToolKind::AttrsSet) { Some(ToolKind::AttrsSet) }
    else if s == tool_name(ToolKind::NotebookLs) { Some(ToolKind::NotebookLs) }
    else if s == tool_name(ToolKind::NotebookCreate) { Some(ToolKind::NotebookCreate) }
    else if s == tool_name(ToolKind::NotebookRename) { Some(ToolKind::NotebookRename) }
    else if s == tool_name(ToolKind::NotebookRemove) { Some(ToolKind::NotebookRemove) }
    else if s == tool_name(ToolKind::DocResolve) { Some(ToolKind::DocResolve) }
    else if s == tool_name(ToolKind::DocTree) { Some(ToolKind::DocTree) }
    else if s == tool_name(ToolKind::DocRename) { Some(ToolKind::DocRename) }
    else if s == tool_name(ToolKind::DocMove) { Some(ToolKind::DocMove) }
    else if s == tool_name(ToolKind::DocRemove) { Some(ToolKind::DocRemove) }
    else if s == tool_name(ToolKind::TagLs) { Some(ToolKind::TagLs) }
    else if s == tool_name(ToolKind::TagSearch) { Some(ToolKind::TagSearch) }
    else if s == tool_name(ToolKind::SearchText) { Some(ToolKind::SearchText) }
    else if s == tool_name(ToolKind::Sql) { Some(ToolKind::Sql) }
    else if s == tool_name(ToolKind::AssetUpload) { Some(ToolKind::AssetUpload) }
    else if s == tool_name(ToolKind::GraphNeighborhood) { Some(ToolKind::GraphNeighborhood) }
    else { None }
}

/// Looks up the tool a call names; `None` for a name no tool has.
pub fn tool_kind(name: &str) -> (r: Option<ToolKind>)
    ensures
        r == tool_kind_of(name@),
{
    if str_eq(name, name_str(ToolKind::Status)) { Some(ToolKind::Status) }
    else if str_eq(name, name_str(ToolKind::DocGet)) { Some(ToolKind::DocGet) }
    else if str_eq(name, name_str(ToolKind::BlockGet)) { Some(ToolKind::BlockGet) }
    else if str_eq(name, name_str(ToolKind::DocCreate)) { Some(ToolKind::DocCreate) }
    else if str_eq(name, name_str(ToolKind::BlockUpdate)) { Some(ToolKind::BlockUpdate) }
    else if str_eq(name, name_str(ToolKind::BlockInsert)) { Some(ToolKind::BlockInsert) }
    else if str_eq(name, name_str(ToolKind::BlockMove)) { Some(ToolKind::BlockMove) }
    else if str_eq(name, name_str(ToolKind::BlockDelete)) { Some(ToolKind::BlockDelete) }
    else if str_eq(name, name_str(ToolKind::AttrsGet)) { Some(ToolKind::AttrsGet) }
    else if str_eq(name, name_str(ToolKind::AttrsSet)) { Some(ToolKind::AttrsSet) }
    else if str_eq(name, name_str(ToolKind::NotebookLs)) { Some(ToolKind::NotebookLs) }
    else if str_eq(name, name_str(ToolKind::NotebookCreate)) { Some(ToolKind::NotebookCreate) }
    else if str_eq(name, name_str(ToolKind::NotebookRename)) { Some(ToolKind::NotebookRename) }
    else if str_eq(name, name_str(ToolKind::NotebookRemove)) { Some(ToolKind::NotebookRemove) }
    else if str_eq(name, name_str(ToolKind::DocResolve)) { Some(ToolKind::DocResolve) }
    else if str_eq(name, name_str(ToolKind::DocTree)) { Some(ToolKind::DocTree) }
    else if str_eq(name, name_str(ToolKind::DocRename)) { Some(ToolKind::DocRename) }
    else if str_eq(name, name_str(ToolKind::DocMove)) { Some(ToolKind::DocMove) }
    else if str_eq(name, name_str(ToolKind::DocRemove)) { Some(ToolKind::DocRemove) }
    else if str_eq(name, name_str(ToolKind::TagLs)) { Some(ToolKind::TagLs) }
    else if str_eq(name, name_str(ToolKind::TagSearch)) { Some(ToolKind::TagSearch) }
    else if str_eq(name, name_str(ToolKind::SearchText)) { Some(ToolKind::SearchText) }
    else if str_eq(name, name_str(ToolKind::Sql)) { Some(ToolKind::Sql) }
    else if str_eq(name, name_str(ToolKind::AssetUpload)) { Some(ToolKind::AssetUpload) }
    else if str_eq(name, name_str(ToolKind::GraphNeighborhood)) { Some(ToolKind::GraphNeighborhood) }
    else { None }
}

/// Every tool's name finds that tool again; so no two tools share a name.
pub proof fn lemma_tool_kind_round_trip(k: ToolKind)
    ensures
        tool_kind_of(tool_name(k)) == Some(k),
        has_prefix(tool_name(k), "siyuan_"@),
{
    reveal_strlit("siyuan_");
    match k {
        ToolKind::Status => {
            reveal_strlit("siyuan_status");
        },
        ToolKind::DocGet => {
            reveal_strlit("siyuan_doc_get");
            reveal_strlit("siyuan_status");
            assert(tool_name(ToolKind::DocGet).len() != tool_name(ToolKind::Status).len());
        },
        ToolKind::BlockGet => {
            reveal_strlit("siyuan_block_get");
            reveal_strlit("siyuan_status");
            assert(tool_name(ToolKind::BlockGet).len() != tool_name(ToolKind::Status).len());
            reveal_strlit("siyuan_doc_get");
            assert(tool_name(ToolKind::BlockGet).len() != tool_name(ToolKind::DocGet).len());
        },
        ToolKind::DocCreate => {
            reveal_strlit("siyuan_doc_create");
            reveal_strlit("siyuan_status");
            assert(tool_name(ToolKind::DocCreate).len() != tool_name(ToolKind::Status).len());
            reveal_strlit("siyuan_doc_get");
            assert(tool_name(ToolKind::DocCreate).len() != tool_name(ToolKind::DocGet).len());
            reveal_strlit("siyuan_block_get");
            assert(tool_name(ToolKind::DocCreate).len() != tool_name(ToolKind::BlockGet).len());
        },
        ToolKind::BlockUpdate => {
            reveal_strlit("siyuan_block_update");
            reveal_strlit("siyuan_status");
            assert(tool_name(ToolKind::BlockUpdate).len() != tool_name(ToolKind::Status).len());
            reveal_strlit("siyuan_doc_get");
            assert(tool_name(ToolKind::BlockUpdate).len() != tool_name(ToolKind::DocGet).len());
            reveal_strlit("siyuan_block_get");
            assert(tool_name(ToolKind::BlockUpdate).len() != tool_name(ToolKind::BlockGet).len());
            reveal_strlit("siyuan_doc_create");
            assert(tool_name(ToolKind::BlockUpdate).len() != tool_name(ToolKind::DocCreate).len());
        },
        ToolKind::BlockInsert => {
            reveal_strlit("siyuan_block_insert");
            reveal_strlit("siyuan_status");
            assert(tool_name(ToolKind::BlockInsert).len() != tool_name(ToolKind::Status).len());
            reveal_strlit("siyuan_doc_get");
            assert(tool_name(ToolKind::BlockInsert).len() != tool_name(ToolKind::DocGet).len());
            reveal_strlit("siyuan_block_get");
            assert(tool_name(ToolKind::BlockInsert).len() != tool_name(ToolKind::BlockGet).len());
            reveal_strlit("siyuan_doc_create");
            assert(tool_name(ToolKind::BlockInsert).len() != tool_name(ToolKind::DocCreate).len());
            reveal_strlit("siyuan_block_update");
            assert(tool_name(ToolKind::BlockInsert)[13] != tool_name(ToolKind::BlockUpdate)[13]);
        },
        ToolKind::BlockMove => {
            reveal_strlit("siyuan_block_move");
            reveal_strlit("siyuan_status");
            assert(tool_name(ToolKind::BlockMove).len() != tool_name(ToolKind::Status).len());
            reveal_strlit("siyuan_doc_get");
            assert(tool_name(ToolKind::BlockMove).len() != tool_name(ToolKind::DocGet).len());
            reveal_strlit("siyuan_block_get");
            assert(tool_name(ToolKind::BlockMove).len() != tool_name(ToolKind::BlockGet).len());
            reveal_strlit("siyuan_doc_create");
            assert(tool_name(ToolKind::BlockMove)[7] != tool_name(ToolKind::DocCreate)[7]);
            reveal_strlit("siyuan_block_update");
            assert(tool_name(ToolKind::BlockMove).len() != tool_name(ToolKind::BlockUpdate).len());
            reveal_strlit("siyuan_block_insert");
            assert(tool_name(ToolKind::BlockMove).len() != tool_name(ToolKind::BlockInsert).len());
        },
        ToolKind::BlockDelete => {
            reveal_strlit("siyuan_block_delete");
            reveal_strlit("siyuan_status");
            assert(tool_name(ToolKind::BlockDelete).len() != tool_name(ToolKind::Status).len());
            reveal_strlit("siyuan_doc_get");
            assert(tool_name(ToolKind::BlockDelete).len() != tool_name(ToolKind::DocGet).len());
            reveal_strlit("siyuan_block_get");
            assert(tool_name(ToolKind::BlockDelete).len() != tool_name(ToolKind::BlockGet).len());
            reveal_strlit("siyuan_doc_create");
            assert(tool_name(ToolKind::BlockDelete).len() != tool_name(ToolKind::DocCreate).len());
            reveal_strlit("siyuan_block_update");
            assert(tool_name(ToolKind::BlockDelete)[13] != tool_name(ToolKind::BlockUpdate)[13]);
            reveal_strlit("siyuan_block_insert");
            assert(tool_name(ToolKind::BlockDelete)[13] != tool_name(ToolKind::BlockInsert)[13]);
            reveal_strlit("siyuan_block_move");
            assert(tool_name(ToolKind::BlockDelete).len() != tool_name(ToolKind::BlockMove).len());
        },
        ToolKind::AttrsGet => {
            reveal_strlit("siyuan_attrs_get");
            reveal_strlit("siyuan_status");
            assert(tool_name(ToolKind::AttrsGet).len() != tool_name(ToolKind::Status).len());
            reveal_strlit("siyuan_doc_get");
            assert(tool_name(ToolKind::AttrsGet).len() != tool_name(ToolKind::DocGet).len());
            reveal_strlit("siyuan_block_get");
            assert(tool_name(ToolKind::AttrsGet)[7] != tool_name(ToolKind::BlockGet)[7]);
            reveal_strlit("siyuan_doc_create");
            assert(tool_name(ToolKind::AttrsGet).len() != tool_name(ToolKind::DocCreate).len());
            reveal_strlit("siyuan_block_update");
            assert(tool_name(ToolKind::AttrsGet).len() != tool_name(ToolKind::BlockUpdate).len());
            reveal_strlit("siyuan_block_insert");
            assert(tool_name(ToolKind::AttrsGet).len() != tool_name(ToolKind::BlockInsert).len());
            reveal_strlit("siyuan_block_move");
            assert(tool_name(ToolKind::AttrsGet).len() != tool_name(ToolKind::BlockMove).len());
            reveal_strlit("siyuan_block_delete");
            assert(tool_name(ToolKind::AttrsGet).len() != tool_name(ToolKind::BlockDelete).len());
        },
        ToolKind::AttrsSet => {
            reveal_strlit("siyuan_attrs_set");
            reveal_strlit("siyuan_status");
            assert(tool_name(ToolKind::AttrsSet).len() != tool_name(ToolKind::Status).len());
            reveal_strlit("siyuan_doc_get");
            assert(tool_name(ToolKind::AttrsSet).len() != tool_name(ToolKind::DocGet).len());
            reveal_strlit("siyuan_block_get");
            assert(tool_name(ToolKind::AttrsSet)[7] != tool_name(ToolKind::BlockGet)[7]);
            reveal_strlit("siyuan_doc_create");
            assert(tool_name(ToolKind::AttrsSet).len() != tool_name(ToolKind::DocCreate).len());
            reveal_strlit("siyuan_block_update");
            assert(tool_name(ToolKind::AttrsSet).len() != tool_name(ToolKind::BlockUpdate).len());
            reveal_strlit("siyuan_block_insert");
            assert(tool_name(ToolKind::AttrsSet).len() != tool_name(ToolKind::BlockInsert).len());
            reveal_strlit("siyuan_block_move");
            assert(tool_name(ToolKind::AttrsSet).len() != tool_name(ToolKind::BlockMove).len());
            reveal_strlit("siyuan_block_delete");
            assert(tool_name(ToolKind::AttrsSet).len() != tool_name(ToolKind::BlockDelete).len());
            reveal_strlit("siyuan_attrs_get");
            assert(tool_name(ToolKind::AttrsSet)[13] != tool_name(ToolKind::AttrsGet)[13]);
        },
        ToolKind::NotebookLs => {
            reveal_strlit("siyuan_notebook_ls");
            reveal_strlit("siyuan_status");
            assert(tool_name(ToolKind::NotebookLs).len() != tool_name(ToolKind::Status).len());
            reveal_strlit("siyuan_doc_get");
            assert(tool_name(ToolKind::NotebookLs).len() != tool_name(ToolKind::DocGet).len());
            reveal_strlit("siyuan_block_get");
            assert(tool_name(ToolKind::NotebookLs).len() != tool_name(ToolKind::BlockGet).len());
            reveal_strlit("siyuan_doc_create");
            assert(tool_name(ToolKind::NotebookLs).len() != tool_name(ToolKind::DocCreate).len());
            reveal_strlit("siyuan_block_update");
            assert(tool_name(ToolKind::NotebookLs).len() != tool_name(ToolKind::BlockUpdate).len());
            reveal_strlit("siyuan_block_insert");
            assert(tool_name(ToolKind::NotebookLs).len() != tool_name(ToolKind::BlockInsert).len());
            reveal_strlit("siyuan_block_move");
            assert(tool_name(ToolKind::NotebookLs).len() != tool_name(ToolKind::BlockMove).len());
            reveal_strlit("siyuan_block_delete");
            assert(tool_name(ToolKind::NotebookLs).len() != tool_name(ToolKind::BlockDelete).len());
            reveal_strlit("siyuan_attrs_get");
            assert(tool_name(ToolKind::NotebookLs).len() != tool_name(ToolKind::AttrsGet).len());
            reveal_strlit("siyuan_attrs_set");
            assert(tool_name(ToolKind::NotebookLs).len() != tool_name(ToolKind::AttrsSet).len());
        },
        ToolKind::NotebookCreate => {
            reveal_strlit("siyuan_notebook_create");
            reveal_strlit("siyuan_status");
            assert(tool_name(ToolKind::NotebookCreate).len() != tool_name(ToolKind::Status).len());
            reveal_strlit("siyuan_doc_get");
            assert(tool_name(ToolKind::NotebookCreate).len() != tool_name(ToolKind::DocGet).len());
            reveal_strlit("siyuan_block_get");
            assert(tool_name(ToolKind::NotebookCreate).len() != tool_name(ToolKind::BlockGet).len());
            reveal_strlit("siyuan_doc_create");
            assert(tool_name(ToolKind::NotebookCreate).len() != tool_name(ToolKind::DocCreate).len());
            reveal_strlit("siyuan_block_update");
            assert(tool_name(ToolKind::NotebookCreate).len() != tool_name(ToolKind::BlockUpdate).len());
            reveal_strlit("siyuan_block_insert");
            assert(tool_name(ToolKind::NotebookCreate).len() != tool_name(ToolKind::BlockInsert).len());
            reveal_strlit("siyuan_block_move");
            assert(tool_name(ToolKind::NotebookCreate).len() != tool_name(ToolKind::BlockMove).len());
            reveal_strlit("siyuan_block_delete");
            assert(tool_name(ToolKind::NotebookCreate).len() != tool_name(ToolKind::BlockDelete).len());
            reveal_strlit("siyuan_attrs_get");
            assert(tool_name(ToolKind::NotebookCreate).len() != tool_name(ToolKind::AttrsGet).len());
            reveal_strlit("siyuan_attrs_set");
            assert(tool_name(ToolKind::NotebookCreate).len() != tool_name(ToolKind::AttrsSet).len());
            reveal_strlit("siyuan_notebook_ls");
            assert(tool_name(ToolKind::NotebookCreate).len() != tool_name(ToolKind::NotebookLs).len());
        },
        ToolKind::NotebookRename => {
            reveal_strlit("siyuan_notebook_rename");
            reveal_strlit("siyuan_status");
            assert(tool_name(ToolKind::NotebookRename).len() != tool_name(ToolKind::Status).len());
            reveal_strlit("siyuan_doc_get");
            assert(tool_name(ToolKind::NotebookRename).len() != tool_name(ToolKind::DocGet).len());
            reveal_strlit("siyuan_block_get");
            assert(tool_name(ToolKind::NotebookRename).len() != tool_name(ToolKind::BlockGet).len());
            reveal_strlit("siyuan_doc_create");
            assert(tool_name(ToolKind::NotebookRename).len() != tool_name(ToolKind::DocCreate).len());
            reveal_strlit("siyuan_block_update");
            assert(tool_name(ToolKind::NotebookRename).len() != tool_name(ToolKind::BlockUpdate).len());
            reveal_strlit("siyuan_block_insert");
            assert(tool_name(ToolKind::NotebookRename).len() != tool_name(ToolKind::BlockInsert).len());
            reveal_strlit("siyuan_block_move");
            assert(tool_name(ToolKind::NotebookRename).len() != tool_name(ToolKind::BlockMove).len());
            reveal_strlit("siyuan_block_delete");
            assert(tool_name(ToolKind::NotebookRename).len() != tool_name(ToolKind::BlockDelete).len());
            reveal_strlit("siyuan_attrs_get");
            assert(tool_name(ToolKind::NotebookRename).len() != tool_name(ToolKind::AttrsGet).len());
            reveal_strlit("siyuan_attrs_set");
            assert(tool_name(ToolKind::NotebookRename).len() != tool_name(ToolKind::AttrsSet).len());
            reveal_strlit("siyuan_notebook_ls");
            assert(tool_name(ToolKind::NotebookRename).len() != tool_name(ToolKind::NotebookLs).len());
            reveal_strlit("siyuan_notebook_create");
            assert(tool_name(ToolKind::NotebookRename)[16] != tool_name(ToolKind::NotebookCreate)[16]);
        },
        ToolKind::NotebookRemove => {
            reveal_strlit("siyuan_notebook_remove");
            reveal_strlit("siyuan_status");
            assert(tool_name(ToolKind::NotebookRemove).len() != tool_name(ToolKind::Status).len());
            reveal_strlit("siyuan_doc_get");
            assert(tool_name(ToolKind::NotebookRemove).len() != tool_name(ToolKind::DocGet).len());
            reveal_strlit("siyuan_block_get");
            assert(tool_name(ToolKind::NotebookRemove).len() != tool_name(ToolKind::BlockGet).len());
            reveal_strlit("siyuan_doc_create");
            assert(tool_name(ToolKind::NotebookRemove).len() != tool_name(ToolKind::DocCreate).len());
            reveal_strlit("siyuan_block_update");
            assert(tool_name(ToolKind::NotebookRemove).len() != tool_name(ToolKind::BlockUpdate).len());
            reveal_strlit("siyuan_block_insert");
            assert(tool_name(ToolKind::NotebookRemove).len() != tool_name(ToolKind::BlockInsert).len());
            reveal_strlit("siyuan_block_move");
            assert(tool_name(ToolKind::NotebookRemove).len() != tool_name(ToolKind::BlockMove).len());
            reveal_strlit("siyuan_block_delete");
            assert(tool_name(ToolKind::NotebookRemove).len() != tool_name(ToolKind::BlockDelete).len());
            reveal_strlit("siyuan_attrs_get");
            assert(tool_name(ToolKind::NotebookRemove).len() != tool_name(ToolKind::AttrsGet).len());
            reveal_strlit("siyuan_attrs_set");
            assert(tool_name(ToolKind::NotebookRemove).len() != tool_name(ToolKind::AttrsSet).len());
            reveal_strlit("siyuan_notebook_ls");
            assert(tool_name(ToolKind::NotebookRemove).len() != tool_name(ToolKind::NotebookLs).len());
            reveal_strlit("siyuan_notebook_create");
            assert(tool_name(ToolKind::NotebookRemove)[16] != tool_name(ToolKind::NotebookCreate)[16]);
            reveal_strlit("siyuan_notebook_rename");
            assert(tool_name(ToolKind::NotebookRemove)[18] != tool_name(ToolKind::NotebookRename)[18]);
        },
        ToolKind::DocResolve => {
            reveal_strlit("siyuan_doc_resolve");
            reveal_strlit("siyuan_status");
            assert(tool_name(ToolKind::DocResolve).len() != tool_name(ToolKind::Status).len());
            reveal_strlit("siyuan_doc_get");
            assert(tool_name(ToolKind::DocResolve).len() != tool_name(ToolKind::DocGet).len());
            reveal_strlit("siyuan_block_get");
            assert(tool_name(ToolKind::DocResolve).len() != tool_name(ToolKind::BlockGet).len());
            reveal_strlit("siyuan_doc_create");
            assert(tool_name(ToolKind::DocResolve).len() != tool_name(ToolKind::DocCreate).len());
            reveal_strlit("siyuan_block_update");
            assert(tool_name(ToolKind::DocResolve).len() != tool_name(ToolKind::BlockUpdate).len());
            reveal_strlit("siyuan_block_insert");
            assert(tool_name(ToolKind::DocResolve).len() != tool_name(ToolKind::BlockInsert).len());
            reveal_strlit("siyuan_block_move");
            assert(tool_name(ToolKind::DocResolve).len() != tool_name(ToolKind::BlockMove).len());
            reveal_strlit("siyuan_block_delete");
            assert(tool_name(ToolKind::DocResolve).len() != tool_name(ToolKind::BlockDelete).len());
            reveal_strlit("siyuan_attrs_get");
            assert(tool_name(ToolKind::DocResolve).len() != tool_name(ToolKind::AttrsGet).len());
            reveal_strlit("siyuan_attrs_set");
            assert(tool_name(ToolKind::DocResolve).len() != tool_name(ToolKind::AttrsSet).len());
            reveal_strlit("siyuan_notebook_ls");
            assert(tool_name(ToolKind::DocResolve)[7] != tool_name(ToolKind::NotebookLs)[7]);
            reveal_strlit("siyuan_notebook_create");
            assert(tool_name(ToolKind::DocResolve).len() != tool_name(ToolKind::NotebookCreate).len());
            reveal_strlit("siyuan_notebook_rename");
            assert(tool_name(ToolKind::DocResolve).len() != tool_name(ToolKind::NotebookRename).len());
            reveal_strlit("siyuan_notebook_remove");
            assert(tool_name(ToolKind::DocResolve).len() != tool_name(ToolKind::NotebookRemove).len());
        },
        ToolKind::DocTree => {
            reveal_strlit("siyuan_doc_tree");
            reveal_strlit("siyuan_status");
            assert(tool_name(ToolKind::DocTree).len() != tool_name(ToolKind::Status).len());
            reveal_strlit("siyuan_doc_get");
            assert(tool_name(ToolKind::DocTree).len() != tool_name(ToolKind::DocGet).len());
            reveal_strlit("siyuan_block_get");
            assert(tool_name(ToolKind::DocTree).len() != tool_name(ToolKind::BlockGet).len());
            reveal_strlit("siyuan_doc_create");
            assert(tool_name(ToolKind::DocTree).len() != tool_name(ToolKind::DocCreate).len());
            reveal_strlit("siyuan_block_update");
            assert(tool_name(ToolKind::DocTree).len() != tool_name(ToolKind::BlockUpdate).len());
            reveal_strlit("siyuan_block_insert");
            assert(tool_name(ToolKind::DocTree).len() != tool_name(ToolKind::BlockInsert).len());
            reveal_strlit("siyuan_block_move");
            assert(tool_name(ToolKind::DocTree).len() != tool_name(ToolKind::BlockMove).len());
            reveal_strlit("siyuan_block_delete");
            assert(tool_name(ToolKind::DocTree).len() != tool_name(ToolKind::BlockDelete).len());
            reveal_strlit("siyuan_attrs_get");
            assert(tool_name(ToolKind::DocTree).len() != tool_name(ToolKind::AttrsGet).len());
            reveal_strlit("siyuan_attrs_set");
            assert(tool_name(ToolKind::DocTree).len() != tool_name(ToolKind::AttrsSet).len());
            reveal_strlit("siyuan_notebook_ls");
            assert(tool_name(ToolKind::DocTree).len() != tool_name(ToolKind::NotebookLs).len());
            reveal_strlit("siyuan_notebook_create");
            assert(tool_name(ToolKind::DocTree).len() != tool_name(ToolKind::NotebookCreate).len());
            reveal_strlit("siyuan_notebook_rename");
            assert(tool_name(ToolKind::DocTree).len() != tool_name(ToolKind::NotebookRename).len());
            reveal_strlit("siyuan_notebook_remove");
            assert(tool_name(ToolKind::DocTree).len() != tool_name(ToolKind::NotebookRemove).len());
            reveal_strlit("siyuan_doc_resolve");
            assert(tool_name(ToolKind::DocTree).len() != tool_name(ToolKind::DocResolve).len());
        },
        ToolKind::DocRename => {
            reveal_strlit("siyuan_doc_rename");
            reveal_strlit("siyuan_status");
            assert(tool_name(ToolKind::DocRename).len() != tool_name(ToolKind::Status).len());
            reveal_strlit("siyuan_doc_get");
            assert(tool_name(ToolKind::DocRename).len() != tool_name(ToolKind::DocGet).len());
            reveal_strlit("siyuan_block_get");
            assert(tool_name(ToolKind::DocRename).len() != tool_name(ToolKind::BlockGet).len());
            reveal_strlit("siyuan_doc_create");
            assert(tool_name(ToolKind::DocRename)[11] != tool_name(ToolKind::DocCreate)[11]);
            reveal_strlit("siyuan_block_update");
            assert(tool_name(ToolKind::DocRename).len() != tool_name(ToolKind::BlockUpdate).len());
            reveal_strlit("siyuan_block_insert");
            assert(tool_name(ToolKind::DocRename).len() != tool_name(ToolKind::BlockInsert).len());
            reveal_strlit("siyuan_block_move");
            assert(tool_name(ToolKind::DocRename)[7] != tool_name(ToolKind::BlockMove)[7]);
            reveal_strlit("siyuan_block_delete");
            assert(tool_name(ToolKind::DocRename).len() != tool_name(ToolKind::BlockDelete).len());
            reveal_strlit("siyuan_attrs_get");
            assert(tool_name(ToolKind::DocRename).len() != tool_name(ToolKind::AttrsGet).len());
            reveal_strlit("siyuan_attrs_set");
            assert(tool_name(ToolKind::DocRename).len() != tool_name(ToolKind::AttrsSet).len());
            reveal_strlit("siyuan_notebook_ls");
            assert(tool_name(ToolKind::DocRename).len() != tool_name(ToolKind::NotebookLs).len());
            reveal_strlit("siyuan_notebook_create");
            assert(tool_name(ToolKind::DocRename).len() != tool_name(ToolKind::NotebookCreate).len());
            reveal_strlit("siyuan_notebook_rename");
            assert(tool_name(ToolKind::DocRename).len() != tool_name(ToolKind::NotebookRename).len());
            reveal_strlit("siyuan_notebook_remove");
            assert(tool_name(ToolKind::DocRename).len() != tool_name(ToolKind::NotebookRemove).len());
            reveal_strlit("siyuan_doc_resolve");
            assert(tool_name(ToolKind::DocRename).len() != tool_name(ToolKind::DocResolve).len());
            reveal_strlit("siyuan_doc_tree");
            assert(tool_name(ToolKind::DocRename).len() != tool_name(ToolKind::DocTree).len());
        },
        ToolKind::DocMove => {
            reveal_strlit("siyuan_doc_move");
            reveal_strlit("siyuan_status");
            assert(tool_name(ToolKind::DocMove).len() != tool_name(ToolKind::Status).len());
            reveal_strlit("siyuan_doc_get");
            assert(tool_name(ToolKind::DocMove).len() != tool_name(ToolKind::DocGet).len());
            reveal_strlit("siyuan_block_get");
            assert(tool_name(ToolKind::DocMove).len() != tool_name(ToolKind::BlockGet).len());
            reveal_strlit("siyuan_doc_create");
            assert(tool_name(ToolKind::DocMove).len() != tool_name(ToolKind::DocCreate).len());
            reveal_strlit("siyuan_block_update");
            assert(tool_name(ToolKind::DocMove).len() != tool_name(ToolKind::BlockUpdate).len());
            reveal_strlit("siyuan_block_insert");
            assert(tool_name(ToolKind::DocMove).len() != tool_name(ToolKind::BlockInsert).len());
            reveal_strlit("siyuan_block_move");
            assert(tool_name(ToolKind::DocMove).len() != tool_name(ToolKind::BlockMove).len());
            reveal_strlit("siyuan_block_delete");
            assert(tool_name(ToolKind::DocMove).len() != tool_name(ToolKind::BlockDelete).len());
            reveal_strlit("siyuan_attrs_get");
            assert(tool_name(ToolKind::DocMove).len() != tool_name(ToolKind::AttrsGet).len());
            reveal_strlit("siyuan_attrs_set");
            assert(tool_name(ToolKind::DocMove).len() != tool_name(ToolKind::AttrsSet).len());
            reveal_strlit("siyuan_notebook_ls");
            assert(tool_name(ToolKind::DocMove).len() != tool_name(ToolKind::NotebookLs).len());
            reveal_strlit("siyuan_notebook_create");
            assert(tool_name(ToolKind::DocMove).len() != tool_name(ToolKind::NotebookCreate).len());
            reveal_strlit("siyuan_notebook_rename");
            assert(tool_name(ToolKind::DocMove).len() != tool_name(ToolKind::NotebookRename).len());
            reveal_strlit("siyuan_notebook_remove");
            assert(tool_name(ToolKind::DocMove).len() != tool_name(ToolKind::NotebookRemove).len());
            reveal_strlit("siyuan_doc_resolve");
            assert(tool_name(ToolKind::DocMove).len() != tool_name(ToolKind::DocResolve).len());
            reveal_strlit("siyuan_doc_tree");
            assert(tool_name(ToolKind::DocMove)[11] != tool_name(ToolKind::DocTree)[11]);
            reveal_strlit("siyuan_doc_rename");
            assert(tool_name(ToolKind::DocMove).len() != tool_name(ToolKind::DocRename).len());
        },
        ToolKind::DocRemove => {
            reveal_strlit("siyuan_doc_remove");
            reveal_strlit("siyuan_status");
            assert(tool_name(ToolKind::DocRemove).len() != tool_name(ToolKind::Status).len());
            reveal_strlit("siyuan_doc_get");
            assert(tool_name(ToolKind::DocRemove).len() != tool_name(ToolKind::DocGet).len());
            reveal_strlit("siyuan_block_get");
            assert(tool_name(ToolKind::DocRemove).len() != tool_name(ToolKind::BlockGet).len());
            reveal_strlit("siyuan_doc_create");
            assert(tool_name(ToolKind::DocRemove)[11] != tool_name(ToolKind::DocCreate)[11]);
            reveal_strlit("siyuan_block_update");
            assert(tool_name(ToolKind::DocRemove).len() != tool_name(ToolKind::BlockUpdate).len());
            reveal_strlit("siyuan_block_insert");
            assert(tool_name(ToolKind::DocRemove).len() != tool_name(ToolKind::BlockInsert).len());
            reveal_strlit("siyuan_block_move");
            assert(tool_name(ToolKind::DocRemove)[7] != tool_name(ToolKind::BlockMove)[7]);
            reveal_strlit("siyuan_block_delete");
            assert(tool_name(ToolKind::DocRemove).len() != tool_name(ToolKind::BlockDelete).len());
            reveal_strlit("siyuan_attrs_get");
            assert(tool_name(ToolKind::DocRemove).len() != tool_name(ToolKind::AttrsGet).len());
            reveal_strlit("siyuan_attrs_set");
            assert(tool_name(ToolKind::DocRemove).len() != tool_name(ToolKind::AttrsSet).len());
            reveal_strlit("siyuan_notebook_ls");
            assert(tool_name(ToolKind::DocRemove).len() != tool_name(ToolKind::NotebookLs).len());
            reveal_strlit("siyuan_notebook_create");
            assert(tool_name(ToolKind::DocRemove).len() != tool_name(ToolKind::NotebookCreate).len());
            reveal_strlit("siyuan_notebook_rename");
            assert(tool_name(ToolKind::DocRemove).len() != tool_name(ToolKind::NotebookRename).len());
            reveal_strlit("siyuan_notebook_remove");
            assert(tool_name(ToolKind::DocRemove).len() != tool_name(ToolKind::NotebookRemove).len());
            reveal_strlit("siyuan_doc_resolve");
            assert(tool_name(ToolKind::DocRemove).len() != tool_name(ToolKind::DocResolve).len());
            reveal_strlit("siyuan_doc_tree");
            assert(tool_name(ToolKind::DocRemove).len() != tool_name(ToolKind::DocTree).len());
            reveal_strlit("siyuan_doc_rename");
            assert(tool_name(ToolKind::DocRemove)[13] != tool_name(ToolKind::DocRename)[13]);
            reveal_strlit("siyuan_doc_move");
            assert(tool_name(ToolKind::DocRemove).len() != tool_name(ToolKind::DocMove).len());
        },
        ToolKind::TagLs => {
            reveal_strlit("siyuan_tag_ls");
            reveal_strlit("siyuan_status");
            assert(tool_name(ToolKind::TagLs)[7] != tool_name(ToolKind::Status)[7]);
            reveal_strlit("siyuan_doc_get");
            assert(tool_name(ToolKind::TagLs).len() != tool_name(ToolKind::DocGet).len());
            reveal_strlit("siyuan_block_get");
            assert(tool_name(ToolKind::TagLs).len() != tool_name(ToolKind::BlockGet).len());
            reveal_strlit("siyuan_doc_create");
            assert(tool_name(ToolKind::TagLs).len() != tool_name(ToolKind::DocCreate).len());
            reveal_strlit("siyuan_block_update");
            assert(tool_name(ToolKind::TagLs).len() != tool_name(ToolKind::BlockUpdate).len());
            reveal_strlit("siyuan_block_insert");
            assert(tool_name(ToolKind::TagLs).len() != tool_name(ToolKind::BlockInsert).len());
            reveal_strlit("siyuan_block_move");
            assert(tool_name(ToolKind::TagLs).len() != tool_name(ToolKind::BlockMove).len());
            reveal_strlit("siyuan_block_delete");
            assert(tool_name(ToolKind::TagLs).len() != tool_name(ToolKind::BlockDelete).len());
            reveal_strlit("siyuan_attrs_get");
            assert(tool_name(ToolKind::TagLs).len() != tool_name(ToolKind::AttrsGet).len());
            reveal_strlit("siyuan_attrs_set");
            assert(tool_name(ToolKind::TagLs).len() != tool_name(ToolKind::AttrsSet).len());
            reveal_strlit("siyuan_notebook_ls");
            assert(tool_name(ToolKind::TagLs).len() != tool_name(ToolKind::NotebookLs).len());
            reveal_strlit("siyuan_notebook_create");
            assert(tool_name(ToolKind::TagLs).len() != tool_name(ToolKind::NotebookCreate).len());
            reveal_strlit("siyuan_notebook_rename");
            assert(tool_name(ToolKind::TagLs).len() != tool_name(ToolKind::NotebookRename).len());
            reveal_strlit("siyuan_notebook_remove");
            assert(tool_name(ToolKind::TagLs).len() != tool_name(ToolKind::NotebookRemove).len());
            reveal_strlit("siyuan_doc_resolve");
            assert(tool_name(ToolKind::TagLs).len() != tool_name(ToolKind::DocResolve).len());
            reveal_strlit("siyuan_doc_tree");
            assert(tool_name(ToolKind::TagLs).len() != tool_name(ToolKind::DocTree).len());
            reveal_strlit("siyuan_doc_rename");
            assert(tool_name(ToolKind::TagLs).len() != tool_name(ToolKind::DocRename).len());
            reveal_strlit("siyuan_doc_move");
            assert(tool_name(ToolKind::TagLs).len() != tool_name(ToolKind::DocMove).len());
            reveal_strlit("siyuan_doc_remove");
            assert(tool_name(ToolKind::TagLs).len() != tool_name(ToolKind::DocRemove).len());
        },
        ToolKind::TagSearch => {
            reveal_strlit("siyuan_tag_search");
            reveal_strlit("siyuan_status");
            assert(tool_name(ToolKind::TagSearch).len() != tool_name(ToolKind::Status).len());
            reveal_strlit("siyuan_doc_get");
            assert(tool_name(ToolKind::TagSearch).len() != tool_name(ToolKind::DocGet).len());
            reveal_strlit("siyuan_block_get");
            assert(tool_name(ToolKind::TagSearch).len() != tool_name(ToolKind::BlockGet).len());
            reveal_strlit("siyuan_doc_create");
            assert(tool_name(ToolKind::TagSearch)[7] != tool_name(ToolKind::DocCreate)[7]);
            reveal_strlit("siyuan_block_update");
            assert(tool_name(ToolKind::TagSearch).len() != tool_name(ToolKind::BlockUpdate).len());
            reveal_strlit("siyuan_block_insert");
            assert(tool_name(ToolKind::TagSearch).len() != tool_name(ToolKind::BlockInsert).len());
            reveal_strlit("siyuan_block_move");
            assert(tool_name(ToolKind::TagSearch)[7] != tool_name(ToolKind::BlockMove)[7]);
            reveal_strlit("siyuan_block_delete");
            assert(tool_name(ToolKind::TagSearch).len() != tool_name(ToolKind::BlockDelete).len());
            reveal_strlit("siyuan_attrs_get");
            assert(tool_name(ToolKind::TagSearch).len() != tool_name(ToolKind::AttrsGet).len());
            reveal_strlit("siyuan_attrs_set");
            assert(tool_name(ToolKind::TagSearch).len() != tool_name(ToolKind::AttrsSet).len());
            reveal_strlit("siyuan_notebook_ls");
            assert(tool_name(ToolKind::TagSearch).len() != tool_name(ToolKind::NotebookLs).len());
            reveal_strlit("siyuan_notebook_create");
            assert(tool_name(ToolKind::TagSearch).len() != tool_name(ToolKind::NotebookCreate).len());
            reveal_strlit("siyuan_notebook_rename");
            assert(tool_name(ToolKind::TagSearch).len() != tool_name(ToolKind::NotebookRename).len());
            reveal_strlit("siyuan_notebook_remove");
            assert(tool_name(ToolKind::TagSearch).len() != tool_name(ToolKind::NotebookRemove).len());
            reveal_strlit("siyuan_doc_resolve");
            assert(tool_name(ToolKind::TagSearch).len() != tool_name(ToolKind::DocResolve).len());
            reveal_strlit("siyuan_doc_tree");
            assert(tool_name(ToolKind::TagSearch).len() != tool_name(ToolKind::DocTree).len());
            reveal_strlit("siyuan_doc_rename");
            assert(tool_name(ToolKind::TagSearch)[7] != tool_name(ToolKind::DocRename)[7]);
            reveal_strlit("siyuan_doc_move");
            assert(tool_name(ToolKind::TagSearch).len() != tool_name(ToolKind::DocMove).len());
            reveal_strlit("siyuan_doc_remove");
            assert(tool_name(ToolKind::TagSearch)[7] != tool_name(ToolKind::DocRemove)[7]);
            reveal_strlit("siyuan_tag_ls");
            assert(tool_name(ToolKind::TagSearch).len() != tool_name(ToolKind::TagLs).len());
        },
        ToolKind::SearchText => {
            reveal_strlit("siyuan_search_text");
            reveal_strlit("siyuan_status");
            assert(tool_name(ToolKind::SearchText).len() != tool_name(ToolKind::Status).len());
            reveal_strlit("siyuan_doc_get");
            assert(tool_name(ToolKind::SearchText).len() != tool_name(ToolKind::DocGet).len());
            reveal_strlit("siyuan_block_get");
            assert(tool_name(ToolKind::SearchText).len() != tool_name(ToolKind::BlockGet).len());
            reveal_strlit("siyuan_doc_create");
            assert(tool_name(ToolKind::SearchText).len() != tool_name(ToolKind::DocCreate).len());
            reveal_strlit("siyuan_block_update");
            assert(tool_name(ToolKind::SearchText).len() != tool_name(ToolKind::BlockUpdate).len());
            reveal_strlit("siyuan_block_insert");
            assert(tool_name(ToolKind::SearchText).len() != tool_name(ToolKind::BlockInsert).len());
            reveal_strlit("siyuan_block_move");
            assert(tool_name(ToolKind::SearchText).len() != tool_name(ToolKind::BlockMove).len());
            reveal_strlit("siyuan_block_delete");
            assert(tool_name(ToolKind::SearchText).len() != tool_name(ToolKind::BlockDelete).len());
            reveal_strlit("siyuan_attrs_get");
            assert(tool_name(ToolKind::SearchText).len() != tool_name(ToolKind::AttrsGet).len());
            reveal_strlit("siyuan_attrs_set");
            assert(tool_name(ToolKind::SearchText).len() != tool_name(ToolKind::AttrsSet).len());
            reveal_strlit("siyuan_notebook_ls");
            assert(tool_name(ToolKind::SearchText)[7] != tool_name(ToolKind::NotebookLs)[7]);
            reveal_strlit("siyuan_notebook_create");
            assert(tool_name(ToolKind::SearchText).len() != tool_name(ToolKind::NotebookCreate).len());
            reveal_strlit("siyuan_notebook_rename");
            assert(tool_name(ToolKind::SearchText).len() != tool_name(ToolKind::NotebookRename).len());
            reveal_strlit("siyuan_notebook_remove");
            assert(tool_name(ToolKind::SearchText).len() != tool_name(ToolKind::NotebookRemove).len());
            reveal_strlit("siyuan_doc_resolve");
            assert(tool_name(ToolKind::SearchText)[7] != tool_name(ToolKind::DocResolve)[7]);
            reveal_strlit("siyuan_doc_tree");
            assert(tool_name(ToolKind::SearchText).len() != tool_name(ToolKind::DocTree).len());
            reveal_strlit("siyuan_doc_rename");
            assert(tool_name(ToolKind::SearchText).len() != tool_name(ToolKind::DocRename).len());
            reveal_strlit("siyuan_doc_move");
            assert(tool_name(ToolKind::SearchText).len() != tool_name(ToolKind::DocMove).len());
            reveal_strlit("siyuan_doc_remove");
            assert(tool_name(ToolKind::SearchText).len() != tool_name(ToolKind::DocRemove).len());
            reveal_strlit("siyuan_tag_ls");
            assert(tool_name(ToolKind::SearchText).len() != tool_name(ToolKind::TagLs).len());
            reveal_strlit("siyuan_tag_search");
            assert(tool_name(ToolKind::SearchText).len() != tool_name(ToolKind::TagSearch).len());
        },
        ToolKind::Sql => {
            reveal_strlit("siyuan_sql");
            reveal_strlit("siyuan_status");
            assert(tool_name(ToolKind::Sql).len() != tool_name(ToolKind::Status).len());
            reveal_strlit("siyuan_doc_get");
            assert(tool_name(ToolKind::Sql).len() != tool_name(ToolKind::DocGet).len());
            reveal_strlit("siyuan_block_get");
            assert(tool_name(ToolKind::Sql).len() != tool_name(ToolKind::BlockGet).len());
            reveal_strlit("siyuan_doc_create");
            assert(tool_name(ToolKind::Sql).len() != tool_name(ToolKind::DocCreate).len());
            reveal_strlit("siyuan_block_update");
            assert(tool_name(ToolKind::Sql).len() != tool_name(ToolKind::BlockUpdate).len());
            reveal_strlit("siyuan_block_insert");
            assert(tool_name(ToolKind::Sql).len() != tool_name(ToolKind::BlockInsert).len());
            reveal_strlit("siyuan_block_move");
            assert(tool_name(ToolKind::Sql).len() != tool_name(ToolKind::BlockMove).len());
            reveal_strlit("siyuan_block_delete");
            assert(tool_name(ToolKind::Sql).len() != tool_name(ToolKind::BlockDelete).len());
            reveal_strlit("siyuan_attrs_get");
            assert(tool_name(ToolKind::Sql).len() != tool_name(ToolKind::AttrsGet).len());
            reveal_strlit("siyuan_attrs_set");
            assert(tool_name(ToolKind::Sql).len() != tool_name(ToolKind::AttrsSet).len());
            reveal_strlit("siyuan_notebook_ls");
            assert(tool_name(ToolKind::Sql).len() != tool_name(ToolKind::NotebookLs).len());
            reveal_strlit("siyuan_notebook_create");
            assert(tool_name(ToolKind::Sql).len() != tool_name(ToolKind::NotebookCreate).len());
            reveal_strlit("siyuan_notebook_rename");
            assert(tool_name(ToolKind::Sql).len() != tool_name(ToolKind::NotebookRename).len());
            reveal_strlit("siyuan_notebook_remove");
            assert(tool_name(ToolKind::Sql).len() != tool_name(ToolKind::NotebookRemove).len());
            reveal_strlit("siyuan_doc_resolve");
            assert(tool_name(ToolKind::Sql).len() != tool_name(ToolKind::DocResolve).len());
            reveal_strlit("siyuan_doc_tree");
            assert(tool_name(ToolKind::Sql).len() != tool_name(ToolKind::DocTree).len());
            reveal_strlit("siyuan_doc_rename");
            assert(tool_name(ToolKind::Sql).len() != tool_name(ToolKind::DocRename).len());
            reveal_strlit("siyuan_doc_move");
            assert(tool_name(ToolKind::Sql).len() != tool_name(ToolKind::DocMove).len());
            reveal_strlit("siyuan_doc_remove");
            assert(tool_name(ToolKind::Sql).len() != tool_name(ToolKind::DocRemove).len());
            reveal_strlit("siyuan_tag_ls");
            assert(tool_name(ToolKind::Sql).len() != tool_name(ToolKind::TagLs).len());
            reveal_strlit("siyuan_tag_search");
            assert(tool_name(ToolKind::Sql).len() != tool_name(ToolKind::TagSearch).len());
            reveal_strlit("siyuan_search_text");
            assert(tool_name(ToolKind::Sql).len() != tool_name(ToolKind::SearchText).len());
        },
        ToolKind::AssetUpload => {
            reveal_strlit("siyuan_asset_upload");
            reveal_strlit("siyuan_status");
            assert(tool_name(ToolKind::AssetUpload).len() != tool_name(ToolKind::Status).len());
            reveal_strlit("siyuan_doc_get");
            assert(tool_name(ToolKind::AssetUpload).len() != tool_name(ToolKind::DocGet).len());
            reveal_strlit("siyuan_block_get");
            assert(tool_name(ToolKind::AssetUpload).len() != tool_name(ToolKind::BlockGet).len());
            reveal_strlit("siyuan_doc_create");
            assert(tool_name(ToolKind::AssetUpload).len() != tool_name(ToolKind::DocCreate).len());
            reveal_strlit("siyuan_block_update");
            assert(tool_name(ToolKind::AssetUpload)[7] != tool_name(ToolKind::BlockUpdate)[7]);
            reveal_strlit("siyuan_block_insert");
            assert(tool_name(ToolKind::AssetUpload)[7] != tool_name(ToolKind::BlockInsert)[7]);
            reveal_strlit("siyuan_block_move");
            assert(tool_name(ToolKind::AssetUpload).len() != tool_name(ToolKind::BlockMove).len());
            reveal_strlit("siyuan_block_delete");
            assert(tool_name(ToolKind::AssetUpload)[7] != tool_name(ToolKind::BlockDelete)[7]);
            reveal_strlit("siyuan_attrs_get");
            assert(tool_name(ToolKind::AssetUpload).len() != tool_name(ToolKind::AttrsGet).len());
            reveal_strlit("siyuan_attrs_set");
            assert(tool_name(ToolKind::AssetUpload).len() != tool_name(ToolKind::AttrsSet).len());
            reveal_strlit("siyuan_notebook_ls");
            assert(tool_name(ToolKind::AssetUpload).len() != tool_name(ToolKind::NotebookLs).len());
            reveal_strlit("siyuan_notebook_create");
            assert(tool_name(ToolKind::AssetUpload).len() != tool_name(ToolKind::NotebookCreate).len());
            reveal_strlit("siyuan_notebook_rename");
            assert(tool_name(ToolKind::AssetUpload).len() != tool_name(ToolKind::NotebookRename).len());
            reveal_strlit("siyuan_notebook_remove");
            assert(tool_name(ToolKind::AssetUpload).len() != tool_name(ToolKind::NotebookRemove).len());
            reveal_strlit("siyuan_doc_resolve");
            assert(tool_name(ToolKind::AssetUpload).len() != tool_name(ToolKind::DocResolve).len());
            reveal_strlit("siyuan_doc_tree");
            assert(tool_name(ToolKind::AssetUpload).len() != tool_name(ToolKind::DocTree).len());
            reveal_strlit("siyuan_doc_rename");
            assert(tool_name(ToolKind::AssetUpload).len() != tool_name(ToolKind::DocRename).len());
            reveal_strlit("siyuan_doc_move");
            assert(tool_name(ToolKind::AssetUpload).len() != tool_name(ToolKind::DocMove).len());
            reveal_strlit("siyuan_doc_remove");
            assert(tool_name(ToolKind::AssetUpload).len() != tool_name(ToolKind::DocRemove).len());
            reveal_strlit("siyuan_tag_ls");
            assert(tool_name(ToolKind::AssetUpload).len() != tool_name(ToolKind::TagLs).len());
            reveal_strlit("siyuan_tag_search");
            assert(tool_name(ToolKind::AssetUpload).len() != tool_name(ToolKind::TagSearch).len());
            reveal_strlit("siyuan_search_text");
            assert(tool_name(ToolKind::AssetUpload).len() != tool_name(ToolKind::SearchText).len());
            reveal_strlit("siyuan_sql");
            assert(tool_name(ToolKind::AssetUpload).len() != tool_name(ToolKind::Sql).len());
        },
        ToolKind::GraphNeighborhood => {
            reveal_strlit("siyuan_graph_neighborhood");
            reveal_strlit("siyuan_status");
            assert(tool_name(ToolKind::GraphNeighborhood).len() != tool_name(ToolKind::Status).len());
            reveal_strlit("siyuan_doc_get");
            assert(tool_name(ToolKind::GraphNeighborhood).len() != tool_name(ToolKind::DocGet).len());
            reveal_strlit("siyuan_block_get");
            assert(tool_name(ToolKind::GraphNeighborhood).len() != tool_name(ToolKind::BlockGet).len());
            reveal_strlit("siyuan_doc_create");
            assert(tool_name(ToolKind::GraphNeighborhood).len() != tool_name(ToolKind::DocCreate).len());
            reveal_strlit("siyuan_block_update");
            assert(tool_name(ToolKind::GraphNeighborhood).len() != tool_name(ToolKind::BlockUpdate).len());
            reveal_strlit("siyuan_block_insert");
            assert(tool_name(ToolKind::GraphNeighborhood).len() != tool_name(ToolKind::BlockInsert).len());
            reveal_strlit("siyuan_block_move");
            assert(tool_name(ToolKind::GraphNeighborhood).len() != tool_name(ToolKind::BlockMove).len());
            reveal_strlit("siyuan_block_delete");
            assert(tool_name(ToolKind::GraphNeighborhood).len() != tool_name(ToolKind::BlockDelete).len());
            reveal_strlit("siyuan_attrs_get");
            assert(tool_name(ToolKind::GraphNeighborhood).len() != tool_name(ToolKind::AttrsGet).len());
            reveal_strlit("siyuan_attrs_set");
            assert(tool_name(ToolKind::GraphNeighborhood).len() != tool_name(ToolKind::AttrsSet).len());
            reveal_strlit("siyuan_notebook_ls");
            assert(tool_name(ToolKind::GraphNeighborhood).len() != tool_name(ToolKind::NotebookLs).len());
            reveal_strlit("siyuan_notebook_create");
            assert(tool_name(ToolKind::GraphNeighborhood).len() != tool_name(ToolKind::NotebookCreate).len());
            reveal_strlit("siyuan_notebook_rename");
            assert(tool_name(ToolKind::GraphNeighborhood).len() != tool_name(ToolKind::NotebookRename).len());
            reveal_strlit("siyuan_notebook_remove");
            assert(tool_name(ToolKind::GraphNeighborhood).len() != tool_name(ToolKind::NotebookRemove).len());
            reveal_strlit("siyuan_doc_resolve");
            assert(tool_name(ToolKind::GraphNeighborhood).len() != tool_name(ToolKind::DocResolve).len());
            reveal_strlit("siyuan_doc_tree");
            assert(tool_name(ToolKind::GraphNeighborhood).len() != tool_name(ToolKind::DocTree).len());
            reveal_strlit("siyuan_doc_rename");
            assert(tool_name(ToolKind::GraphNeighborhood).len() != tool_name(ToolKind::DocRename).len());
            reveal_strlit("siyuan_doc_move");
            assert(tool_name(ToolKind::GraphNeighborhood).len() != tool_name(ToolKind::DocMove).len());
            reveal_strlit("siyuan_doc_remove");
            assert(tool_name(ToolKind::GraphNeighborhood).len() != tool_name(ToolKind::DocRemove).len());
            reveal_strlit("siyuan_tag_ls");
            assert(tool_name(ToolKind::GraphNeighborhood).len() != tool_name(ToolKind::TagLs).len());
            reveal_strlit("siyuan_tag_search");
            assert(tool_name(ToolKind::GraphNeighborhood).len() != tool_name(ToolKind::TagSearch).len());
            reveal_strlit("siyuan_search_text");
            assert(tool_name(ToolKind::GraphNeighborhood).len() != tool_name(ToolKind::SearchText).len());
            reveal_strlit("siyuan_sql");
            assert(tool_name(ToolKind::GraphNeighborhood).len() != tool_name(ToolKind::Sql).len());
            reveal_strlit("siyuan_asset_upload");
            assert(tool_name(ToolKind::GraphNeighborhood).len() != tool_name(ToolKind::AssetUpload).len());
        },
    }
    assert(tool_name(k).subrange(0, 7) =~= "siyuan_"@);
}

/// All tools in listing order: each entry is [`tool_spec_of`] its
/// position, the names are pairwise distinct and all start with `siyuan_`.
pub fn tool_specs() -> (r: Vec<ToolSpec>)
    ensures
        r@.len() == TOOL_COUNT,
        forall|i: int| 0 <= i < r@.len() ==> #[trigger] r@[i]@ == tool_spec_of(i),
        forall|i: int, j: int| 0 <= i < j < r@.len() ==> r@[i].name@ != r@[j].name@,
        forall|i: int| 0 <= i < r@.len() ==> has_prefix(#[trigger] r@[i].name@, "siyuan_"@),
{
    let mut out: Vec<ToolSpec> = Vec::new();
    let mut i: usize = 0;
    while i < TOOL_COUNT
        invariant
            i <= TOOL_COUNT,
            out@.len() == i,
            forall|j: int| 0 <= j < i ==> #[trigger] out@[j]@ == tool_spec_of(j),
        decreases TOOL_COUNT - i,
    {
        out.push(tool_spec(kind_at(i)));
        i = i + 1;
    }
    proof {
        assert forall|i: int, j: int| 0 <= i < j < out@.len() implies out@[i].name@ != out@[j].name@ by {
            assert(out@[i]@ == tool_spec_of(i));
            assert(out@[j]@ == tool_spec_of(j));
            lemma_tool_kind_round_trip(tool_kind_at(i));
            lemma_tool_kind_round_trip(tool_kind_at(j));
            assert(tool_kind_at(i) != tool_kind_at(j));
        }
        assert forall|i: int| 0 <= i < out@.len() implies has_prefix(#[trigger] out@[i].name@, "siyuan_"@) by {
            assert(out@[i]@ == tool_spec_of(i));
            lemma_tool_kind_round_trip(tool_kind_at(i));
        }
    }
    out
}

} // verus!
