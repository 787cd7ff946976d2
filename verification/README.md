# hexwife

A hex viewer for the terminal. Offsets, line numbers and the cursor are 128 bits
wide, so a file may be as long as 2^128 - 1 bytes.

The logic is a library that Verus verifies:

- `viewer` - the cursor, the visible lines and the layout
- `input` - what keys, the mouse wheel and the terminal's size do
- `pattern` - the patterns that the search prompt accepts
- `search` - the search, block after block
- `line`, `draw`, `screen` - what the terminal shows
- `config` - the settings that outlive a session
- `text`, `util`, `constants` - numbers and text, offsets, fixed sizes
- `finder` - the calls into `memchr` and `regex`
- `laws` - what holds of the viewer as a whole

`app` is the program around it: arguments, the file, the settings file, events
and drawing. `tests` runs the library.

Trusted are the functions marked `external_body`, one in `screen` and three in
`finder`, the two names `regex_error` and `regex_starts` for what the `regex`
crate returns, in `finder`, and the two specifications of `String` methods in
`text`.
