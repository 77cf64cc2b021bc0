# rcode

A terminal chat agent that talks to an OpenAI-compatible model and lets the
model run shell commands. The crate is a Verus library (`src/`) with a thin
executable around it (`app/`).

`src/` holds the logic, each function with a contract that Verus checks:

- `app`, `event`, `handler`: the interface state (typed line, transcript,
  scroll position), what each key does to it, and how a sent message and its
  outcome enter the transcript.
- `tool_calls`, `agent`: the conversation with the model, the assembly of
  streamed tool-call chunks into tool calls, the handling of a streamed reply,
  and what a tool call asks to be run.
- `render`: how many terminal rows a text takes (`str::lines` splitting and
  greedy wrapping by display width), the transcript as text, the layout of the
  interface, and terminal control sequences.
- `config`, `tools`, `numbers`, `strings`, `width`, `json`: where the
  configuration file is found, the text a shell command hands back, decimal
  text of integers, and the calls into `unicode-width`, `serde_json` and
  `ratatui` that the logic relies on.

`app/` does the input and output: the terminal, the network stream, running
commands, reading the configuration file.
