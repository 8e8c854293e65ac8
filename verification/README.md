# poe_bridge

A bridge that offers the chat models of Poe through an OpenAI-compatible HTTP
interface, with its logic verified by Verus.

## Layout

- `src/` is the library. Everything in it is verified, except the trusted functions
  named below.
  - `text`: text as a sequence of characters: trimming, searching, lines.
  - `tags`: the tags around reasoning, and the order in which they come.
  - `reasoning`: reasoning blocks of a complete answer, rewritten between
    `<think>` and `</think>`.
  - `thinking_stream`: the same while an answer is still arriving.
  - `events`, `replace`, `answer`, `stream`: how the events of the service become
    an answer in one piece or a stream of chunks.
  - `types`, `errors`, `identity`: what replies are made of.
  - `sse`: the text form of the messages of a stream.
  - `config`, `config_cache`, `models`, `chat`: the rules for models, the list of
    models, and what is done with a request.
  - `headers`, `cors`: HTTP headers and access from other origins.
  - `content`: the forms in which a message may come.
  - `settings`: values from the environment.
  - `rounding`, `units`: sizes and time spans as text, rounded as doubles are.
- `app/` is the server around it: sockets, files, locks, JSON and YAML.
- `tests/` runs the library.

## What is trusted

Calls into other crates stand behind small functions whose contracts are stated
and not proved: the random identifier (`nanoid`), the clock (`chrono`), header
values (`salvo`), JSON text (`serde_json`) and the cache (`quick_cache`). Of the
standard library, `String::push`, `str::to_lowercase` and two methods of
`Duration` are described in the same way.
