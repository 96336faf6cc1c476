# win_widgets

The logic of a desktop widget host, verified with Verus.

- `src/` is the library: the registry of open widget windows, the widget
  manifest and its synchronisation with the widget folders on disk, the
  settings of each widget, the addresses widget windows open, installing
  widget packs from GitHub (reading repository URLs, unpacking archives,
  describing the widgets a pack offers), the `widget://` file protocol, and
  the decisions of the Windows service, the tray menu and the power listener.
  Every function carries a contract; the laws of the library are proof
  functions next to the code they speak of.
- `tests/` runs the library on concrete values.
- `app/` is the Tauri application around the library: windows, files,
  network and the Windows API.
