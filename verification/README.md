# cane

The decisions of a coding agent, as a library that is verified with Verus, and a thin program
around it.

The library (`src/`) does no I/O. It takes what was observed and says what to do about it:

- `agent`: a conversation with a model as a state machine. It says what to write to the journal,
  what to show, when to ask the provider, and when a tool may run. `agent/laws.rs` states what
  holds of every run.
- `journal`: the records of a session, the lifecycle that they follow, reading a journal back,
  and the state of a journal that is being written.
- `approval` and `protocol`: what a user may grant, for how long, and what a grant covers.
- `command`: shell commands. Classifying them, laying out the sandbox and the process, diagnosing
  the host, supervising a running process, and reporting what it wrote.
- `config`: versioned JSON documents with a lock and a schema beside them.
- `checklist`: the checklist that the model keeps.
- `cli`: the command line, the shell that it sets up, and the conversation on a terminal.
- `text`, `bytes`, `path`, `environment`, `entries`: what these are built on.

What is believed rather than proved stands in `outside.rs`, `text.rs`, `journal/id.rs` and
`config/json.rs`: each item there names the outside function and what is claimed of it.

`app/` performs the effects: files, processes, terminals, JSON. `tests/` runs the library.
