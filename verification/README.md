# plotx

The verified core of the PlotX spectroscopy workbench, written in Verus.

`src/` holds the logic with its contracts and laws:

- `vamas` — the ISO 14976 VAMAS layout: header, block descriptors, comments,
  and which blocks are XPS data (`text` holds the character helpers it uses);
  `vamas_report` gives the messages of refused files, the warnings for skipped
  blocks and how XPS blocks become regions grouped by measurement position.
- `constraints`, `xps` — the link graph of constrained peak parameters, its
  dependency orders, component edits and the XPS fitting errors.
- `bootstrap`, `provenance`, `xps_session` — Bootstrap options and the sign
  generator, the input hash of a fit, processing steps and fit jobs.
- `xrd`, `xrd_container` — XRD processing parameters and the binary entry of
  an XRD dataset in a project file.
- `ribbon`, `card_layout`, `sidebars`, `gesture`, `fonts`, `ui_state` — the
  workbench's layout and interaction rules: Ribbon width planning, task-card
  placement, sidebar widths, trackpad gestures, font priority, and the small
  state decisions of the shell.

`tests/` exercises the library on concrete values. `app/` is the program
around it: file reading, floating-point numerics (backgrounds, smoothing,
normalization) and the conversions between measured points and layout units.
