# bonzai

A living bonsai for the terminal: a small persistent plant that grows over
real time, needs water, turns toward its light and can be shaped by pruning.

`src/` is the core library, each function stated by its contract and proved:

- `rng`, `canvas`, `tree`: the seeded xorshift generator, the character grid
  and the procedural tree (a straight stem, trunk and branch walkers, leaf
  clusters kept above the planter, crown and planter).
- `text`, `ansi`, `scene`, `screen`: character helpers and numerals, visible
  width, centering and clipping of styled text, the tree's text lines, and
  the viewer's screens, cut to the terminal's size.
- `record`: the `key=value` state file, with a write/read round trip.
- `command`, `frontend`, `paths`: the request protocol and its effect on the
  directional care, the command line, viewer keys and animations, the
  terminal size, the save schedule, and the XDG file locations.

`app/` is the program around it: the clock, files, the Unix socket, the
terminal, and the fractional care levels, which use floating point.
