# rtils

A toolkit of small systems pieces — chunked lists, an id allocator, a cons
list, an integer-keyed hash map and set, text scanning and formatting, a
tokenizer, a block heap and the buffers taken from it, pipes and locks, a
message-passing process runtime, an HTTP file server, a two-way
request/response channel, typed table columns, text-box editing, a
drawing-command buffer and the primitive draws that a stream of commands
turns into —
whose logic is written in Verus and proved against its contracts.

Layout:

- `src/` — the verified library. Public functions state what they return
  or change; the `law_*` proof functions state properties that
  relate several operations (what one call undoes, what a read gives back of
  a write, what every operation keeps).
- `tests/` — ordinary Rust tests that run the library on concrete values.
- `app/` — the program around the library: terminal and network I/O, the
  async event loop and process driver, serialization, and the parts that
  work on floating-point values.
