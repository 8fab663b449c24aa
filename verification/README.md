# rho_tui

The logic of rho's terminal interface as a Verus library: the composer and
its keys, prompt history and queues, paste bursts, the `@` file picker,
pickers and their filters, questionnaires, markdown and table rendering,
wrapping by display width, the status line, goals, the streaming of a
model turn and the turn's decisions, and the translation of agent events
into what the transcript shows.

- `src/` is the verified library. Every public function states its result
  in its `ensures`; the `lemma_*` proof functions state the laws that tie
  functions together (round trips, what a step keeps, what wrapping keeps).
- `app/` holds what cannot be verified here: file discovery on disk,
  terminal mouse modes, running shell commands, the goal evaluator's JSON,
  and float formatting of the status line.
- `tests/` runs the library on concrete values.
