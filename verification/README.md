# rust_mcp_gateway

A gateway for MCP servers. It starts the servers that the files of a directory configure, offers their tools under one
roof, passes calls on to them within the limits of a policy, and replaces servers without losing the requests of its
client.

- `src/` is the library: every rule of the gateway, with contracts that Verus proves. It does no I/O of its own; what
  it asks of the system clock, of `uuid`, `sha2` and `serde_json` stands behind a few trusted functions, each of which
  says in its comment what it relies on.
- `tests/` runs the library on concrete values.
- `app/` is the program around it: the command line, files, processes, the control socket and the protocol.

| Module | What it holds |
| --- | --- |
| `text`, `encoding`, `digest`, `ids`, `json`, `span`, `clock` | texts, hex and base64, SHA-256, identifiers, JSON, spans of time, the clock |
| `name_map`, `order` | maps and sets of names, sorting |
| `names`, `config`, `config_files`, `start` | what a child is, which files configure the children, how one is started |
| `policy` | what may be called, and within which limits |
| `request`, `request_registry`, `progress` | the queue and capacity, the requests in progress, reports of progress |
| `telemetry`, `artifact`, `guard`, `reply` | the history, what is kept of large answers, what passes on, what is answered |
| `recovery`, `supervisor` | when a stopped child is started again |
| `catalog`, `reload`, `catalog_laws` | the tools on offer, how a new catalog is drawn up, what holds of it |
| `resource` | the resources of the children |
| `control` | the requests to the control socket |
| `gateway`, `call`, `calls` | the gateway as a whole, and the course of a call |
