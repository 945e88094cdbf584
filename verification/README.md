# bf

A Brainfuck toolkit: an interpreter with an unbounded tape, generators that
write scripts printing a given text, and a live editor that reruns the
script as it is typed.

- `src/` is the library, verified with Verus. The interpreter's steps are a
  spec function (`interpreter::step`), and `run` proves that the generated
  scripts print the text they were made from. The editor, its dialogues,
  the tape view, the command-line checks and the output printer are state
  machines and functions with contracts; `session` decides, step by step,
  what a run shows on the terminal.
- `app/` is the `bf` command around it: argument parsing, files, the
  terminal, threads.
- `tests/` runs the library on examples.
