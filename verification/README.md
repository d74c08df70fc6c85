# cuthulhu

The logic of a vinyl-cutter toolchain, verified with Verus: the document model and its
undoable edits, planning a document into passes, the rules that refuse a cut, the material
presets, the HP-GL and GP-GL dialects, the device worker's state machine, the device registry,
the project file format's versioning, and the pixel preparation and post-processing of bitmap
tracing.

- `src/` is the verified library. Each module states its behaviour in `requires`/`ensures`
  over spec functions and views; the laws the library keeps (an applied edit is undone by its
  inverse, a session is framed once, a plan holds each cut shape it reaches exactly once and counts
  the shapes it does not cut, and others) are public proof
  functions beside the code they speak of.
- `app/` is ordinary Rust around the library: floating-point geometry, fonts, SVG and image
  decoding, project archives, serial and USB hardware, and the thread that runs the device
  worker. It gathers what the library's decisions need and carries out what they decide.
- `tests/` exercises the library from outside.
