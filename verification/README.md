# gitlauncher

A terminal launcher for local repositories. The repositories are listed in a
YAML settings file; typing narrows the list to the repositories whose id
contains the typed text, the arrow keys move the cursor (wrapping around at
both ends), Enter runs the selected repository's `keyword` with its `path`
through `sh -c`, and Esc quits.

Layout:

- `src/` — the verified library: the settings format (`settings`), the
  repository list and its search (`app`, `repo`, `text`), the reaction to each
  event (`events`), the event source's settings (`keys`), and a small message
  recorder built on the same event handling (`editor`).
- `app/` — the program: reading the settings file, the input and tick
  threads, drawing with `tui`, and running the launch command.
- `tests/` — tests of the library on concrete values.

Run it as `gitlauncher <settings.yaml>`. The settings file looks like:

```yaml
repos:
  - work:
      id: launcher
      path: ~/src/launcher
      keyword: code
      colour: { r: 200, g: 120, b: 0 }
```
