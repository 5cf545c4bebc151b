# nalumina_link

Control logic of a modular Linux audio router on PipeWire, verified with
Verus.

- `src/` is the verified library: per-channel mix state (`channel_state`),
  translation lookup and language choice (`i18n`, `catalog`), status line
  and refresh decisions (`status`, `refresh`), the input-channel workspace
  (`workspace`), node property parsing and peak decoding (`node_props`),
  live-meter planning (`meters`), command-line parsing and listings
  (`cli`), and the string building blocks they share (`text`, `labels`).
- `app/` is the program around it: PipeWire discovery, `pw-cat` captures,
  threads, the egui desktop UI and the floating-point gain and meter maths.
- `tests/` runs the library on concrete values.
