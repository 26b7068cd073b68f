# dragon_li

The core of a desktop chat assistant with long-term memory, written in Verus:
every function of the library carries a contract that Verus proves.

- `src/` — the verified library
  - `text`, `paths`, `web`: characters and trimming, Unix paths, URL parts
  - `config`, `guardrails`: API profiles, the configuration manager and its
    file-change rules, and the path, capability and network checks
  - `extraction`, `indexing`, `memory`, `review`, `recall`: reading chat text for
    memory candidates, the search index of memories, their Markdown documents and
    versions, the review of candidates, and recalling memories into a prompt
  - `chat`, `chat_flow`, `agent_http`: chat requests, retries, answers, the
    command-level decisions, and the HTTP dialect spoken with the local agent
  - `store`, `runtime`, `utils`: database records and busy retries, the runtime
    directory, error codes and log ids
- `tests/` — tests of the library on concrete values
- `app/` — the desktop application around it: the database, files, the agent
  process and socket, and the commands of the user interface
