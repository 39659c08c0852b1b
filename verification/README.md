# leg

A command-line client for the Messages API with local tools: one-shot prompts,
interactive sessions that can be resumed from their trail, and a headless
request/response exchange.

`src/` is the library. Its behaviour is stated in contracts over mathematical
models and proved with Verus:

- `text`, `calendar`, `json`: texts, dates and JSON trees.
- `model`, `events`, `message`, `wire`: conversations, trail events, envelopes,
  and their JSON forms.
- `roundtrip`: what is written reads back.
- `sink`, `trail`: where events go.
- `log`: reading a trail back into exchanges and sessions.
- `transport`: the provider boundary, the Messages client, bounded retries.
- `tools`: the tool loop, the guard that lets no tool run before its hook has
  allowed the call, and the rules of the `read`, `write`, `edit` and `bash` tools
  and of the pre-tool hook.
- `session`, `resume`: one turn of a live session, rebuilding a conversation from
  its trail, and the proof that both agree.
- `participant`, `exchange`: answering one request, alone or within a session.
- `cli`, `config`, `image_input`, `error`: the command line, the configuration,
  attached images, errors.

`app/` is the program around it: arguments, files, signals, subprocesses and the
network. `tests/` runs the library.

Functions that call an outside crate or the clock are few and marked
`external_body`; each names what it calls and what it claims of it.
