# agent-box-common

The logic of agent-box — disposable workspaces and containers for coding
agents — and of its host portal, as a library verified with Verus.

- `src/` is the library. Every function in it has a contract, and Verus
  proves the library's own functions against theirs; the few small
  wrappers that call an outside crate or std (marked
  `#[verifier::external_body]`) are trusted, not proved. It covers
  configuration and profile resolution (`config`, `profiles`),
  path names and workspace layout (`pathname`, `path`), repository choice
  (`repo`), the portal protocol and policy (`portal`, `portal_client`), the
  host portal's decisions and rate limiting (`host`), the `ab` output
  (`cli`) and the `wl-paste` wrapper's arguments (`wl_paste`). Laws that
  span several functions are the public proof functions named `law_*`.
- `tests/` runs the library on concrete cases.
- `app/` holds the programs (`ab`, `agent-portal-host`,
  `agent-portal-client`, `wl-paste`, `generate_schema`, chosen by the name
  the binary runs under): configuration files, the file system, git and jj,
  sockets, prompts and processes, around the library's decisions.
