# hremap

A key remapper for Linux input devices. Keys, mouse buttons and scroll-wheel
steps are looked up in layered mapping tables (a layer inherits its parent's
mappings and overrides them), chosen per focused window, and turned into key
combinations, macros, layer switches, volume changes or program launches.

- `src/` is the verified library (Verus): configuration resolution
  (`parser`, `config`), the remapping state machine (`state`), event
  classification and key sequences (`events`, `keys`), macro playback
  (`macros`), device selection (`devices`), volume commands and the
  `pactl` listing search (`volume`), the window watchers' text handling
  (`watcher`), character helpers (`text`), and cross-operation properties
  (`laws`).
- `app/` is the program around it: reading the YAML configuration, grabbing
  evdev devices, the tokio event loop that performs the state machine's
  commands, macro tasks, the uinput output devices, and the GNOME / KDE
  window watchers.
- `tests/` exercises the library on concrete values.
