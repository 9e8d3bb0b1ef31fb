# script_server

A small HTTP service that runs executable scripts on request, with a verified core.

- `src/` is the library, proved with Verus:
  - `server.rs`: the request state machine (token check, method check, path
    checks, executable check, running the script) as a step function from an
    event to the next action.
  - `utils.rs`: header lookup, the executable-bit test and the outcome of a run.
  - `webserver/`: request-line parsing and the HTTP/JSON response text.
  - `storage/uci/`: UCI configuration model (options, sections, configs, the
    tree of loaded configs), its selector syntax (`@type[index]`), and laws
    relating its operations.
  - `text.rs`, `search.rs`: string and search helpers shared by the above.
- `app/` is the executable around it: arguments, sockets, files and processes.
- `tests/` exercises the library on concrete values.
