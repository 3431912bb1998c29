# annotation

A transparent full-screen drawing overlay for Wayland compositors with
`wlr-layer-shell`, split into a verified library and a GTK front end.

- `src/` is the library, checked by Verus:
  - `canvas.rs`: the strokes drawn with the pointer (press, move, release,
    clear) and the order they are painted in, for any style and point type;
  - `pen.rs`: the pen width, stepped one pixel at a time within 1..=60;
  - `hex.rs`: reading a `#RRGGBB` colour entry and writing a colour that way;
  - `keys.rs`: what each key does.
- `app/main.rs` is the GTK 4 program: the window, the colour picker, the
  floating-point colour model and the cairo painting. It calls the library
  for every decision above.
