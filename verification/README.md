# mcp_proxy

A reverse proxy for the Model Context Protocol. It aggregates several MCP
backends behind one endpoint, each under a namespace of its own, and puts
middleware around them: capability filters, tool aliases, role-based access
control, request validation, caching, coalescing, retries and metrics.

- `src/` is the library. Every function states in its contract what it returns,
  and Verus proves it. The few calls into other crates stand behind small
  functions marked `external_body`, each with a comment on what is relied on.
- `tests/` runs the library on concrete values.
- `app/` is the program around it: the command line, the config file, the
  transports, the HTTP endpoints and the tower services.

| Module | Subject |
| --- | --- |
| `config` | configuration, its rules, and references to the environment |
| `filter`, `alias`, `rbac`, `validation` | middlewares on requests and responses |
| `keys`, `cache`, `coalesce`, `retry` | middlewares on traffic |
| `access_log`, `metrics` | what is logged and measured |
| `admin`, `admin_tools`, `discovery`, `skills` | introspection |
| `proxy`, `gateway`, `reload` | which backends and layers a configuration asks for |
| `protocol`, `json`, `names`, `text`, `float`, `sequences` | the ground the others stand on |
