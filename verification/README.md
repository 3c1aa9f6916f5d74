# Edge Shortcut Tool

A small Windows utility that applies Microsoft Edge launch flags (feature
switches such as `--enable-features` and `--disable-features`, and standalone
switches) to Edge's shortcuts, and to the command Windows runs when another app
opens a web link in Edge.

## Layout

- `src/` is the library, verified with Verus. It holds everything the tool
  decides: the command-line tokenizer, normalizing and composing the Custom
  fields, reading flags back out of existing shortcut arguments, the candidate
  shortcut locations and their path order, the settings kept in the registry,
  the plan of registry writes for web links, the status texts, and window
  placement.
  - `text`, `tokens`, `options`: text (including finding every occurrence of a
    word), tokenizer and launch options.
  - `targets`: Edge channels, the selection, and settings.
  - `registry`: `reg query` output, link commands, and the link write plan.
  - `paths`, `path_parse`, `path_order`: candidate shortcut paths, Windows path
    components (prefix, root, parts) and the path order they give.
  - `apply`, `report`, `layout`: the apply plan and record, the Info texts, and
    centering windows.
  - `readback`: laws that composed options read back as written.
- `app/` is the Windows program around it: the window (native-windows-gui),
  the registry (`reg.exe`), shell links (COM, through `windows`), the
  environment and the file system. It reads what the library asks for and
  carries out what the library decides.
- `tests/` runs the library on concrete values.
