# ESC/POS viewer

A virtual receipt printer: it takes print jobs over TCP port 9100 or from files, and shows the
ticket that a thermal printer would print.

The library under `src/` is written and proved in Verus:

- `model`: commands and the state of the printer
- `text`: characters, numerals and UTF-8
- `barcode`: CODE128, EAN, ITF and CODE39, from text to runs to pictures
- `image`, `qr`: raster images, column bit images and QR symbols
- `labels`, `hex_dump`: the debug panels
- `layout`: columns, wrapping and the items on a ticket
- `viewer`: the history of jobs, the simulation of printing, the window, its textures, the
  listener
- `tcp_capture`, `tray`, `window_control`, `printer_setup`, `startup`, `app_icon`: what the
  program decides around its input and output

`app/` is the program: the window, the sockets, the tray and the files. It looks for `icon.ico`
and `assets/fonts/dotfont.ttf` in its working directory. `tests/` runs the library.

Parsing is a parameter of the library: `viewer` takes any function from bytes and a code page to
commands.
