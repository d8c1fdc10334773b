# chess_engine

The core of a chess engine, written in Verus: every function under `src/`
carries a `requires`/`ensures` contract that Verus proves.

- `pieces`, `board`, `game_state`: the position and its rules of motion;
  making and unmaking a move restore the state exactly.
- `validators`, `movegen`, `movers`: piece rules, legal move generation
  (all moves, captures, check evasions) with the exact list each generator
  returns, and playing a move.
- `perft`: counting move paths; the count equals a recursive definition over
  the legal move lists, and the per-move counts of a divide add up to it.
- `see`, `ordering`, `move_picker`, `heuristics`: static exchange evaluation,
  move-ordering keys, the staged move picker and its history and killer
  tables.
- `tt`, `zobrist`, `rep_stack`, `context`: the transposition table, position
  hashing, the repetition stack and the search context with its time budget.
- `root_moves`, `root_heuristics`, `tactics`, `critical_defense`,
  `search_support`: scoring and ordering of root moves and the numbers the
  search steers by (aspiration windows, playing strength).

`simple_search` holds plain minimax to a fixed depth (`minimax`,
`SimpleSearch::find_best_move`), with the position evaluator handed in by
the caller.

`search` is the alpha-beta search: quiescence search (`qsearch`,
`qsearch_with_quiescence`), null-move pruning, late-move reductions, move
ordering and principal variation search (`search_moves`, `alphabeta`), on
one game state that every call gives back unchanged, with the
transposition table and the repetition stack. What it reads about a
position without computing it itself (the static evaluation, MVV-LVA
scores, the game phase, the passed-pawn test and the logarithmic base of
the reductions) comes from the caller in `SearchOracles`. `root_search`
searches the root moves (`evaluate_after_root_move`,
`evaluate_root_for_bounds`), wraps that in the aspiration loop
(`probe_with_aspiration`) and drives it by iterative deepening
(`find_best_move`). Choosing a weaker move by playing strength, with its
random noise, stays with the caller.

`tests/` exercises the library on concrete positions. `app/` holds what runs
around it: parallel move counting, random move choice by playing strength,
progress reporting and the process-wide tables.
