# MCP editor LSP bridge

One local core that shares language servers with coding agents and an editor:
symbols, definitions, references, diagnostics, guarded renames and code actions,
over HTTP, the Model Context Protocol and a command line.

- `src/` is the library: every decision of the bridge as functions on plain
  values, with contracts that Verus proves. Positions, edits and framing are in
  `protocol`; documents and whose text counts in `workspace` and `documents`;
  checks and snapshots in `checks`; what is said of them in `status` and
  `output`; staged edits in `refactor`; renames and code actions in `rename`,
  `selection` and `plans`; servers in `language` and `lsp`; the editor's side in
  `companion`; connected workspaces in `registry`; requests in `application`,
  `server` and `cli`. `json`, `wire`, `uri`, `path`, `order`, `escape`, `table`
  and `text` are what these are written with.
- `tests/` runs the library.
- `app/` is the program around it: processes, files, sockets and the command
  line. It looks for the dashboard's pages in a `web` directory beside itself.

The facts that hold of the whole are stated as proof functions whose names start
with `law_`.
