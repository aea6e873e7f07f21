# agentcast

The configuration, authorization and protocol core of the AgentCast MCP
gateway, written in Verus and verified against its contracts.

- `src/` is the verified library: OAuth scopes and bearer authorization,
  OAuth state checks and the refresh/callback state machines, `.env` file
  editing and merging, the MCP upstream configuration and its mutations,
  the configuration document edited by dotted key paths, importing MCP
  server definitions from client files, the transport rules and the
  request-handling steps of the
  protected MCP endpoint, and the CLI tables. Calls into `url`,
  `serde_json` and `toml` stand behind a few trusted wrappers whose
  contracts name what those crates compute.
- `app/` holds what is not verified: reading and writing files, the
  environment, and the serde form of the typed configuration.
- Discovery reads, in order, the files of a client that keeps its servers
  in a settings directory under the home directory plus a legacy file (its
  label and file names are given by the caller, as `SettingsClient`), then
  Codex's and Gemini's files; the first server of each name wins.
- `tests/` runs the library on concrete values.
