# gtab

A workspace manager for Ghostty on macOS: it saves the tabs of the front Ghostty window
(working directories and titles) as an AppleScript file and reopens them later, from the
command line or from a small keyboard-driven launcher.

The library under `src/` holds the logic, with contracts checked by Verus:

- `text`: trimming, line splitting, substring tests and decimal numbers over characters.
- `script`, `script_laws`: the workspace script that is written for captured tabs, the
  reader that recovers the tabs from a script, and the proof that one undoes the other.
- `config`: the settings file and its reader.
- `ghostty`: the managed keybind file and the reference to it in Ghostty's configuration.
- `env`: paths, workspace names, settings changes and what each request writes or removes.
- `listing`: the saved workspaces found in the workspace directory, ordered by name.
- `splits`: split panes: the layout rebuilt from the panes' frames as a tree of straight
  cuts, and the script lines that split each tab again when it is reopened.
- `tui`: the launcher's state machine, key by key.
- `error`: the refusals and their messages.

`app/` is the program around it: command-line parsing, files, processes, and the terminal
drawing.

## Launcher keys

| Key | Action |
|-----|--------|
| typing | Search workspaces (any key that is not a command below starts the search) |
| `/` | Search workspaces, command letters included |
| `↑` / `↓` | Move selection |
| `Enter` | Launch selected workspace |
| `a` | Save current Ghostty window as new workspace |
| `n` | Rename selected workspace |
| `d` | Delete selected workspace |
| `e` | Open workspace file in `$EDITOR` |
| `g` | Edit Ghostty shortcut |
| `t` | Settings (`close_tab`) |
| `p` | Toggle the preview |
| `q` / `Esc` | Quit (`Esc` first ends a search) |

## Split panes

Saving also lists each pane's frame and working directory (through macOS Accessibility).
When a tab's panes can be cut apart by straight lines, the saved script splits the tab the
same way again, each new pane opening in its own directory; otherwise the tab is reopened
whole. The split sizes are Ghostty's defaults, not the saved ones.

## Not supported

The new window is not moved to the old one's position and size, and rows cannot be
double-clicked.
