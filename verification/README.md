# rustcoding

A collection of small Rust programs — linked-list, tree and array problems, a terminal chat
assistant with a bounded ReAct loop and local tools, and an English tutor whose answers a
second model proofreads — whose logic lives in a library verified with Verus.

## Layout

- `src/` — the verified library.
  - list, tree and array problems, one module each (`merge_two_lists`, `invert_tree`,
    `top_k_frequent`, `word_break`, `max_distinct_elements`, ...), each with its contract
    and, where the problem promises more, laws as public proof functions;
  - `text` — string building and parsing helpers with their specifications;
  - `chatbot/` — the chat assistant's settings, messages, command handling, tool planning,
    error handling, server-sent event decoding and the ReAct turn as a state machine
    (`react`): from a state and what happened outside to the next state and what to do;
  - `tutor/` — the tutor's screen state and its key handling (`app`), the proofreading
    rounds and reply printing (`review`), and what the screen shows (`screen`).
- `tests/` — tests of the library.
- `app/` — the programs around the library: terminal, HTTP, files, processes, the web
  server, the language-model clients and the screen drawing.
