# gladesync

The multiplayer companion for Tiny Glade, with its logic verified in Verus.

- `src/` is the verified library: text helpers with exact specifications
  (`text`), the protocol types (`protocol`), the session state of a host or
  a client with its player list, kicks, bans and handshakes (`network`),
  choosing, packing and unpacking save glades (`saves`), the debug log and
  the save-sync timing (`hook`), the console commands (`console`) and the
  decisions of the overlay menu (`ui`).
- `app/` is the mod around it: the proxy `dxgi.dll` entry point, sockets,
  files, the Win32 overlay, key polling and the JSON wire format.
- `tests/` runs the library on concrete values.
