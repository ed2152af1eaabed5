# splitwm

The decision core of a terminal-multiplexer-style tiling Wayland compositor,
verified with Verus, and the program around it.

Windows live in a horizontally scrolling strip of columns; a column stacks its
splits. Closing, splitting, dragging and resizing are operations on that strip,
and what a key press, a click, a commit or a notification leads to is decided
by functions from plain values to plain values.

## Layout

- `src/` is the library. Every function carries a contract that Verus proves,
  but for the few wrappers around calls into other crates and std, whose doc
  comments say what is believed of the call.
  - `layout`, `sizes`, `state`, `arrange`, `scene`, `frame`: the strip, its
    geometry, focus and viewport, what is shown where, and the order of
    drawing.
  - `shell`, `manage`, `layers`, `xwayland`, `icons`: the window store, what a
    window is, panels, X11 windows, application icons.
  - `seat`, `input`, `interaction`, `pointer`, `debug`: what the devices
    report, keys, buttons, drags, hit-testing, and the line protocol that
    drives a session.
  - `draw`, `chrome`, `compose`, `taskbar`, `bubble`, `pieces`, `indexed`,
    `icon_cache`, `quantize`, `cursor`: what the chrome consists of, as drawing
    operations.
  - `launch`, `menu`, `notify`, `notifications`, `wallpaper`, `image`, `cache`,
    `backlight`, `screencopy`, `backend`: everything around the windows.
  - `layout::laws` and the public proof functions beside the code state what
    holds across operations.
- `tests/` runs the library on concrete values.
- `app/` is the program: it owns the display, the seat, the session bus and the
  disk, and hands the library plain values. Colour conversion, halftoning and
  easing are floating point and stand there.

## Measures

Row shares and scroll amounts are fixed-point integers. What only floating point
or a font can tell (the part of its way a transition has made, where a text
breaks) is handed to the library as a function.
Objects of the window system are known to the library by number.
