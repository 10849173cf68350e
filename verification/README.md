# fastpeq

A preset manager for Equalizer APO with hardware-EQ offload, whose logic is
a Verus-verified library.

## Layout

- `src/` — the verified library.
  - `model`, `serialize`, `provenance`, `tone`: the APO configuration model,
    its text form, the preset stamp and the tone overlay.
  - `store`, `history`, `archive`, `category`, `order`, `paths`, `manager`:
    the preset library — safe names, revisions and their ids, the archive of
    deleted presets, categories, and the operations the UI invokes, each
    planned from what was read.
  - `state`, `tray`: what the app remembers between commands (bypass and
    what it restores, the cached active preset, the offload reconcile key)
    and the tray menu.
  - `env`, `device`, `audio`, `status`, `autostart`, `hotkeys`, `peace`:
    install detection, endpoint effect registrations, audio devices, status
    reports, launch flags, hotkey accelerators and PEACE preset files.
  - `hardware`, `moondrop_family`, `moondrop`, `walkplay`, `fiio`,
    `protocol`, `worker`, `offload`: recognizing hardware-EQ devices, their
    USB HID protocols and push plans, and the rate-limited push worker's
    decisions.
  - `cli`, `select`, `text`: the hardware tool's arguments and selectors,
    and the text helpers everything above is specified with.
- `tests/` — tests of the library.
- `app/` — the command-line program: file system, registry and HID I/O,
  the worker thread, and the floating-point band arithmetic.
