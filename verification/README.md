# n_body

An n-body particle simulation with a verified core.

- `src/` is the library, verified with Verus: the parsing of the credits list
  (`start_screen::credits`), the moving-average window (`mov_avg`), the choice of
  distribution method (`config`, `particle::belt_random::Direction`) and the
  decisions of the parameter editor (`start_screen::param_edit`: when the file
  list is refreshed and which files it lists).
- `app/` is the program around it: the window, the UI, file I/O, random
  generation and the floating-point physics.
- `tests/` exercises the library on concrete values.
