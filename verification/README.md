# sketchbook

Building blocks for Bevy creative-coding sketches, with their logic verified
by Verus.

- `src/` is the verified library: the ping-pong bookkeeping of feedback loops,
  the registry of named slider controls and the control-panel toggle, frame
  recording (state, zero-padded frame file names and their order), asset paths
  and window setup, and the integer logic of the sketches (grid layout, sprite
  choice, the seamless 250-frame loop clock, the sprite-folder listing).
- `app/` wires the library into Bevy: the plugins, systems, the egui control
  panel, screenshots, frame pacing and the sketches themselves. Floating-point
  motion, shader materials and engine calls live there.
- `tests/` exercises the library on concrete values.
