# aside

A harness for the Aside command-line client, with its core verified by Verus.

- `src/` is the library. Its functions carry contracts, and Verus proves them, except for
  the calls to the outside that are named at the end.
  - `text`, `json`, `paths`: texts, JSON documents and paths.
  - `protocol`: what a harness and its host exchange.
  - `accounts`, `catalog`, `models`, `discovery`: the model catalog, from the account
    listing and the accounts' configuration files.
  - `harness`, `args`: where the client is looked for, and its command lines.
  - `completion`, `session`, `turns`: what the reply to a task says, how a turn goes from
    step to step, and what holds of every turn.
- `app/` runs the client: processes, files and streams. It performs the actions that a
  `Session` asks for and reports back what came of them.
- `tests/` runs the library on concrete values.

What the proofs rest on besides Verus is marked in the sources: the calls into
`serde_json`, `uuid` and a few functions of the standard library, each with a comment
that says what is claimed of it.
