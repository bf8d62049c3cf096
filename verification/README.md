# wl_binclock

A binary clock for Wayland layer-shell compositors: six hexadecimal digits
(by default the local time, `HHMMSS`), each shown as a column of four 16x16
cells, most significant bit at the top.

- `src/` is the verified library: the timer's line and how input is read back
  into digits (`clock`), the bit masks and the painting of the 96x64 frame
  (`draw`), palette arguments and decoding 16x16 image files (`args`, `hex`), the surface
  state and the event loop's decisions (`surface`), the wallpaper cache's
  names (`config`) and character helpers (`text`).
- `app/` is the program around it: clap, reading files, the Wayland connection, shared
  memory, the timer thread and the cache's downloads.
- `tests/` runs the library on concrete values.
