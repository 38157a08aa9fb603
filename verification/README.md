# minimax-proxy

A proxy between the Zed editor and the MiniMax chat models. The editor asks for
an inline completion; the proxy rewrites the prompt, asks the model, cleans the
answer and replies.

- `src/` is the library. Everything that the proxy decides or computes stands
  there, with contracts that Verus proves: parting a fill-in-the-middle prompt
  (`fim`), the messages to the model (`prompt`), cleaning its answer (`clean`),
  requests and replies (`completion`), tries and retries (`upstream`), the
  configuration and the time limit (`config`), log previews (`preview`), the
  language server protocol (`lsp`), and how the editor's extension starts the
  server (`extension`). `text` and `number` hold what these share, `json` the
  calls into `serde_json`.
- `app/` is the server with its network and console, and the extension.
- `tests/` runs the library.

What is said of all inputs stands in the public proof functions whose names
begin with `law_`. What is taken on trust are the contracts of the functions
marked `external_body`; each says in its comment what it claims.
