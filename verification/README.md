# knowledge_agent

A local research assistant and maintenance tool for Obsidian vaults, with its
logic verified by Verus.

## Layout

- `src/` — the verified library.
  - `text.rs`: character-level text (trim, lines, substring search, order) as
    specified over `Seq<char>`, with the `str` semantics they follow.
  - `vault/`: wikilinks, frontmatter, index documents, note scans, the link
    graph, vault-relative paths, the write policy, PDF assets and the
    confirmation queue.
  - `maintenance/`: the maintenance checks (broken wikilinks) and their inbox.
  - `tools.rs`: the logic of the vault tools offered to the agent (list, read,
    search, neighbours, create, propose, append to an index).
  - `ask.rs`: chat requests, sessions, runners without a model, DeepSeek
    configuration, and the answers and transcripts of a conversation.
  - `server.rs`: the decisions of the HTTP API (request checks, replies,
    activity events).
  - `settings.rs`: shared vault conventions and personal settings.
  - `laws.rs`: properties that relate several functions, proved.
- `tests/` — tests of the library on concrete values.
- `app/` — the `knowledge-agent` program: the command line, the HTTP server,
  file I/O, serialization, and the runners backed by the agent harness.

## Running

```bash
knowledge-agent serve <vault> --port 3030
```

The DeepSeek key is read from `.knowledge-agent/local.toml` or, when that has
none, from `DEEPSEEK_API_KEY`; `DEEPSEEK_MODEL` defaults to `deepseek-v4-flash`.
