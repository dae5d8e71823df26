# glassconf

A terminal editor for the settings of the glass terminal emulator
(`~/.glassrc`): colours, font size and weight, window numbers, the
background colour cycle, key bindings and six theme presets, with a live
preview of the chosen colours.

The editor's logic is a library verified with Verus:

- `src/text.rs`: trimming, splitting, decimal numbers, stated over `Seq<char>`.
- `src/hex.rs`: reading `#rrggbb` colours and writing them in canonical form.
- `src/model.rs`: the settings, their default layout and the editor state.
- `src/config.rs`: reading `key = value` lines and writing the config text.
- `src/roundtrip.rs`: a written config reads back as the settings it was written from.
- `src/nav.rs`: moving between settings, stepping values, colours and themes.
- `src/edit.rs`: editing a value by typing it.
- `src/render.rs`: the text of the title, category list, settings pane and status line.
- `src/keys.rs`: what each key does to the state, and what the terminal is to do next.

`app/main.rs` is the program around it: the panes and key input of the
`crust` terminal library, and reading and writing the config file.
