# hexerator

The core of the hexerator hex editor: its logic, with contracts proved.

- `src/plugin_api.rs`: the plugin interface: value types and their labels, method
  descriptions, source-provider parameters, the host handle that plugins call, and what
  the plugins menu keeps.
- `src/hello.rs`: the example plugin: method dispatch, filling the selection, summing a
  range, and the generated data source (whole, from an offset, as a stream).
- `src/app.rs`: the editor state, which is also the host handle of the plugins, and where
  the cursor stands relative to the view.
- `src/pattern_fill.rs`: reading a fill pattern of hexadecimal bytes, filling a range with
  it, and the fill dialog's decisions.
- `src/source.rs`: attributes and state of a data source.
- `src/text.rs`: string helpers.
- `app/`: what the verified library does not hold: loading plugins from dynamic libraries,
  file, stdin and plugin data sources, and the file I/O of the editor.
- `tests/`: tests of the library on concrete values.
