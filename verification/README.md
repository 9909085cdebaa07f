# ide_core

The decision logic of a PHP workbench and of the assistant that lives in it, written in Verus: its
functions state what they give or change, and Verus proves it. What a flag that other threads share
holds at a moment is not stated. Which flag is read or set is, and so is what follows from each
reading: every look at such a flag is kept in a record, with what had been done by then.

- `src/` is the library.
  - `text`, `json`, `utf16`: characters, JSON values and positions.
  - `provider`, `request`, `http`, `ollama`: what is said to a provider of models, and how its answers
    are read, whole or as they arrive. `framing` and `reply` say that it does not show how an
    answer was cut or in which parts it came in.
  - `run`, `executor`, `tools`, `orchestration`, `context`: the runs of the agent, their budgets and
    approvals, the tools, and the rounds of a conversation that uses them. `trace` and `chat` say
    what a run and a chat come to, step by step, for each answer that comes from outside; `progress`
    says what every run keeps to, and `reasoning` that no run sees the reasoning of another. `record`
    keeps the looks and the calls.
  - `commands`, `interaction`, `find`, `bar`, `edit`, `input`, `pointer`, `view`, `widths`: shortcuts,
    words, search, typing, the input method, the mouse, and what the editor shows.
  - `php`, `signature`, `receiver`, `completion`, `native`, `accept`, `imports`, `help`, `navigate`,
    `formatter`: names and types of PHP sources, completions, definitions and formatting.
  - `syntax`, `symbols`, `semantic`, `table`: syntax trees, and what an index answers.
  - `diagnostics`, `inspect`, `arguments`, `session`: inspections and the state of an open document.
  - `lsp`: the bridge to a language server.
- `tests/` runs the library on concrete values.
- `app/` is a console around it: the connection to an Ollama server, the file of shortcuts, the
  threads, and what is measured in pixels.

Laws that relate several functions are public proof functions whose names begin with `law_`.

What the library does not compute itself it takes from `serde_json`, `url`, `lsp-types` and the
standard library, through functions marked `external_body` and `assume_specification` items; the
comment above each says what is believed of the call behind it. Models, tools, policies and whoever
reads files are traits: what they answer is not known beforehand, so a contract that involves them
says which answer was given to which question, and what was made of it.
