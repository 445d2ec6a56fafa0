# cap_recording

The verified core of a screen recorder. `src/` is a Verus library: its
functions carry contracts, and the laws that span several functions are public
proof functions named `law_*`.

- `camera_heal`: finds camera tracks that were stamped at the wrong rate, and
  decides step by step how their timestamps are rewritten without losing the
  original.
- `decoder`: the frame server's cache and replies, packed RGBA frames, and a
  channel receiver that can look ahead.
- `cursor`, `cursor_run`, `cursor_image`, `bitmap`, `png`, `tiff`: mouse moves,
  clicks and cursor pictures.
- `capture_pipeline`: the stages of a recording and what its encoders do with
  each frame.

Times are integers in nanoseconds, and fractions are kept exact. `app/` is the
ordinary Rust around the library: files, devices, threads, encoders and
floating-point numbers. The operating systems' own cursors and FFmpeg are used
on macOS and Windows. `tests/` runs the library.
