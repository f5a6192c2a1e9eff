# yawnoc

A 16x16 Game of Life on a torus, with a search for the sparsest predecessor of a
board, written in Verus.

- `src/` is the verified library: the board and its rules (`board`), the seed
  patterns (`patterns`), sums over the torus and the neighbour-count law
  (`counting`), the clause encodings of "is a predecessor of"
  (`life`) and "at most k cells are alive" (`at_most`) with their satisfaction
  semantics (`cnf`), the call into the `splr` SAT solver (`solver`), the
  predecessor search (`search`), the commands of the user interfaces (`keys`)
  and the application state machine (`conway`).
- `app/` holds the front ends: the browser interface, the desktop back end with
  its search thread, and the WebAssembly build with its JSON interface.
- `tests/` runs the library on concrete boards.
