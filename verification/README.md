# tuxinjector

An overlay for Minecraft speedruns that is injected into the game: it hooks
symbol lookups and buffer swaps, draws panels and companion apps over the
picture, follows the game's state, and shows what Ninjabrain Bot computes.

- `src/` is the core, verified with Verus: the parsers (JSON events, event
  streams, cursor files, markup, version tables), the formatters, the state
  machines (client sessions, capture of windows, streams, cursors, clipboard,
  frame pacing, hooks) and the layout of the panel. Each public function has a
  contract, and proof functions named `law_..` state what holds across them.
- `app/` is the injected library around the core: files, sockets, X11, Wayland,
  GL, macOS capture, child processes, logging, and floating-point painting.
- `tests/` runs the core on concrete values.

Real numbers cross the border between the two as bit patterns or as texts. What
other crates compute for the core stands behind small functions whose contracts
say what is relied on: reading JSON, decoding PNG pictures, resizing pictures,
and lower-casing text.
