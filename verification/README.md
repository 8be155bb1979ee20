# Axocoatl

Axocoatl runs language-model agents that work in directories: it talks to model
providers, keeps conversations and memories, sandboxes what agents execute, and
runs automations, workflows and parallel variants.

The library under `src/` holds the rules of all this, written in Verus and proved
against their contracts. It does no I/O. What it decides, `app/` carries out.

| module      | what it holds                                                                 |
|-------------|-------------------------------------------------------------------------------|
| `text`, `table`, `json`, `outside` | strings, keyed tables, JSON values, and the calls into other crates |
| `llm`       | requests to Anthropic, Gemini, Mistral, Ollama and OpenAI, and their answers  |
| `memory`    | chats, files, core and long-term memory, snapshots, logs, transcripts         |
| `session`   | the sessions and their store                                                  |
| `token`     | budgets, compact formats, and the compression of long conversations           |
| `tools`     | paths, the tools of a session, and which tool runs where                      |
| `isolation` | containers, WebAssembly modules and microVMs                                  |
| `daemon`    | automations, runs, workflows, git, variants, webhooks and startup             |

Work that alternates with the outside world is a state machine: it says what to
do next and takes the outcome. `daemon::execution`, `daemon::variants`,
`daemon::diff`, `isolation::session_sandbox::Startup` and
`token::pipeline::Compression` are of this kind.

Functions whose names begin with `law_` state what holds across several
functions.
