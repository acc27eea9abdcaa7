# localmind

The verified core of LocalMind, a private AI chat that runs against local
model runtimes (Ollama, LM Studio, an OpenAI-compatible server, or an embedded
llama.cpp server it installs itself).

- `src/` is the library, written in Verus. It holds the prompt assembly within
  a token budget, the ranking of retrieved passages, the connection registry
  with its exclusive activation, the decoders for the providers' streamed
  answers, the streaming of one answer to the screen, document import rules,
  the embedded runtime's installation steps, downloads and the schema
  migrations. Verus proves each function against its contract. The calls
  into std and outside crates (paths, ids, the clock, text conversions) sit
  behind a few small wrappers whose contracts are taken as given; those that
  depend on the disk or the clock state nothing of their result.
- `tests/` runs the library on concrete inputs.
- `app/` is a thin command-line shell around the library: SQLite storage,
  HTTP calls to the providers, the file system and the server process.
