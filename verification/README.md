# walldots

Turns an image into a halftone-like grid of dots for wallpapers: each dot's
size follows the local brightness and its colour the dominant hue of the
pixels around it.

- `src/` — the verified library (Verus): colour parsing and hex text, the
  dominant colour of a cell (mode of the quantised histogram), the grid
  layout and cell contents, the black & white conversion, the SVG frame,
  output names, and the state machines of the file browser and of the tuner.
- `app/` — the program: command line, image files, brightness and dot sizes
  (floating point), rasterisation, and the terminal interface.
- `tests/` — tests of the library.
