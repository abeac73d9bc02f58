# vamp

A small interactive shell, written as a verified library (`src/`) and a thin
program around it (`app/`).

The library holds the shell's logic, each function with a contract that
Verus proves:

- `text`: character-level text operations (trimming, splitting into words,
  searching, replacing, lines) specified over character sequences;
- `patterns`: substitution of the matches of a regular expression (used for
  command substitution, `` `cmd` `` and `$(cmd)`, and variable references,
  `$name`), alias definitions (`name="value"`) and assignments
  (`name=value`); the matching itself is done by the `regex` crate, and the
  library is verified against what that crate documents of its matches;
- `state`: the tables of aliases and variables, and the `alias` builtin;
- `parsing`: pipelines with `>`/`>>` redirection, alias expansion, and the
  plan for one command;
- `history`: how commands join the history and what a reverse search finds;
- `input`: the line editor as a state machine from keys to terminal actions.

The program in `app/` reads keys and lines, runs processes, and reads and
writes the history and start-up files.
