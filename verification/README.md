# sweep

A command line fuzzy finder, whose logic is a library verified with Verus.

## Layout

- `src/` — the verified library:
  - `text`, `kmp` — characters, trimming, splitting, number parsing, Knuth–Morris–Pratt search;
  - `candidate`, `field_json`, `candidate_json` — candidates, their fields, field selectors,
    and their JSON forms;
  - `scorer`, `rank` — substring and subsequence matching, match positions, and the
    decisions of the ranker;
  - `keys`, `widgets`, `actions`, `window`, `marked`, `finder`, `layout` — key bindings, the
    input line and the list, the window stack and its steps, marked items, what an action, a
    key press, a mouse event or a request does to the finder window, and where the window goes on the terminal;
  - `command` — command templates with field placeholders;
  - `json`, `message`, `frame`, `request`, `peer`, `rpc` — JSON-RPC: messages and their JSON
    form, length-framed streams and their decoding, requests and errors, and the decisions of a peer;
  - `walk`, `history`, `navigator`, `cli` — paths and ignore rules, history records,
    navigation modes, command line values.
- `tests/` — tests of the library.
- `app/` — the program: argument handling, reading candidates, floating point scores,
  printing, and a JSON-RPC service on standard input and output.
