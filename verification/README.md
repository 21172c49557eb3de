# duck_color_picker

The verified core of the Duck Color Picker (取色鸭), a desktop colour picker:
it captures the screens, lets the user point at a pixel, copies the colour in
the chosen notation and keeps a history of picks.

`src/` is the library, verified with Verus:

- `float` — `f64`/`f32` arithmetic reproduced exactly in fixed point, with
  error and sign lemmas.
- `color`, `hsl`, `cmyk` — the HEX, RGB, HSL and CMYK notations, each stated
  as the floating point formula computes it; `naming` — the Chinese colour
  names; `sample` — a sampled colour with all of them.
- `copy_format` — the copy formats, their labels and the toast URL.
- `settings` — preferences, the shortcut rule and the pick history.
- `picker` — the picker session protocol: request generations, setup,
  readiness, toasts and the one-time permission prompt.
- `frame`, `capture` — reading a pixel of a captured frame and encoding a
  frame as a PNG data URL (through the `image` and `base64` crates).
- `launch`, `text` — launch arguments, menu ids and text helpers.

`app/` is the Tauri application around the library: windows, capture,
clipboard, tray, shortcuts and platform calls.
