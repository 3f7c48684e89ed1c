# recodex

The Chat Completions wire path of a coding agent, and the enrichment of model
metadata from the [models.dev](https://models.dev) catalog, verified with
[Verus](https://github.com/verus-lang/verus).

- `src/` is the library. Every function in it states what it returns, and every
  statement is proved.
  - `chat_request`: a conversation and its tools become a request.
  - `chat_response`: response types, and provider errors as API errors.
  - `sse`: a stream of chunks becomes the item lifecycle that a turn consumer
    expects; `sse::lifecycle`, `sse::tool_calls` and `sse::call_trace` prove what
    holds of whole streams and of each tool call in them.
  - `models_dev`: finding a model in the catalog, merging what is known of it,
    and remembering earlier lookups; `models_dev::laws` proves what holds of
    enrichments as a whole.
  - `clock`, `json`, `models`, `string_map`, `text`, `error`: what these build on.
- `tests/` runs the library on examples.
- `app/` is the side that touches the network, files and JSON text. It is not
  verified.

Two functions in `clock` call into chrono; their contracts are taken on trust.
