# responses_bridge

A bridge between two formats of OpenAI's interface: Chat Completions and Responses. It converts
requests, responses and event streams in both directions, so that a client that speaks one format
can use a server that speaks the other. The conversions are written in Verus: what each function
returns is stated over a mathematical model of JSON and proved.

- `src/json.rs`, `src/value.rs`: JSON values, their model, and the crossing to `serde_json`.
- `src/responses_request.rs`, `src/input_items.rs`: a Chat Completions request becomes a Responses
  request.
- `src/chat_request.rs`, `src/chat_messages.rs`: a Responses request becomes a Chat Completions
  request.
- `src/chat_response.rs`, `src/responses_response.rs`: the same for responses.
- `src/responses_stream.rs`, `src/responses_event.rs`, `src/thinking.rs`: a Chat Completions stream
  becomes a Responses stream, without the thinking in its content.
- `src/chat_stream.rs`, `src/chat_chunk.rs`: a Responses stream becomes a Chat Completions stream.
- `src/arguments.rs`, `src/content.rs`, `src/schema.rs`: the arguments of calls, content as text, and
  the schemas of tools.
- `src/sse.rs`, `src/text.rs`, `src/table.rs`, `src/machine.rs`, `src/error.rs`: server-sent events,
  text, tables, what is taken from the machine, and errors.
- `src/request_laws.rs`, `src/input_laws.rs`, `src/response_laws.rs`,
  `src/responses_stream_laws.rs`, `src/chat_stream_laws.rs`: what holds of the conversions as a
  whole.
- `app/`: the asynchronous streams and the functions on `serde_json` values around the library.
