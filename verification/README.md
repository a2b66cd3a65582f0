# kai_fan_le_helper

A Windows helper that watches the clipboard for Douyin share text, finds the
companion phone app on the local network and sends it the recognised show
title.

- `src/` is the library, verified with Verus: the title parser, the
  clipboard filters, the name generator, the device session (selection,
  scan back-off, history and known addresses), the hotkey bindings and
  their throttle, the wire formats of the discovery hello, `/ping` and
  `/submit`, and the toolbar: its layout arithmetic and what it does with
  clicks, the tray menu and the clipboard. Calls into `regex`, `serde_json`
  and a few standard-library functions sit behind small trusted wrappers
  whose contracts are stated next to them.
- `app/` is the executable around it: the tokio runtime and sockets, the
  Win32 window, tray, keyboard hook and clipboard, the registry, and the
  JSON files, which it reads into the library's types and writes back.
- `tests/` runs the library on concrete inputs.
