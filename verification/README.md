# altostratus

A terminal viewer for 3D point files, drawn with Unicode Braille characters (each character
shows a block of 2 by 4 dots).

`src/` is the verified core, checked with Verus:

- `screen.rs` — the dot raster (`Screen`): writing dots, clearing, resizing, fitting to a
  terminal, line drawing, and turning the raster into text (plain, ANSI-colored, HTML, and
  the terminal frame).
- `layout.rs`, `trim.rs`, `raster.rs` — the specifications of how dots become characters,
  how exported text is trimmed to its content, and the integer line walk, with their lemmas.
- `guarantees.rs` — properties of the exports that hold for every raster.
- `braille.rs`, `color.rs` — Braille characters and colors.
- `pointfile.rs` — the point file format, line by line.
- `command.rs` — the command prompt (`/load`, `/export`, `/clear`) and the keys that drive it.
- `args.rs` — what the command line asks for.
- `text.rs` — character-level text helpers (trimming, splitting into words and lines).

`app/` is the program around it: argument parsing with clap, the terminal loop with
crossterm, file I/O, and the floating-point camera and geometry.
